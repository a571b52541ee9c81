//! The AHCI host bus adapter: its register encodings, the command structures that a port
//! hands to the device, and the decisions of controller and port set-up.
//!
//! Registers are modelled by their values: a register object holds the value that was read
//! and records whether a method wrote a new one, which the caller then stores back.
use vstd::prelude::*;

use crate::bits::{bit32, test_bit32};
use super::cursor::{u16_at, u32_at, u64_at, Cursor};
use super::pci::{DeviceType, MassStorageControllerType, SataControllerInterface};

verus! {

/// The host capabilities register (CAP).
#[derive(Debug, Clone, Copy)]
pub struct HostCapabilities(pub u32);

impl HostCapabilities {
    /// Supports 64-bit addressing (bit 31).
    pub fn s64a(&self) -> (r: bool)
        ensures
            r == bit32(self.0, 31),
    {
        test_bit32(self.0, 31)
    }

    /// Supports native command queuing (bit 30).
    pub fn sncq(&self) -> (r: bool)
        ensures
            r == bit32(self.0, 30),
    {
        test_bit32(self.0, 30)
    }

    /// Supports the SNotification register (bit 29).
    pub fn ssntf(&self) -> (r: bool)
        ensures
            r == bit32(self.0, 29),
    {
        test_bit32(self.0, 29)
    }

    /// Supports a mechanical presence switch (bit 28).
    pub fn smps(&self) -> (r: bool)
        ensures
            r == bit32(self.0, 28),
    {
        test_bit32(self.0, 28)
    }

    /// Supports staggered spin-up (bit 27).
    pub fn sss(&self) -> (r: bool)
        ensures
            r == bit32(self.0, 27),
    {
        test_bit32(self.0, 27)
    }

    /// Supports aggressive link power management (bit 26).
    pub fn salp(&self) -> (r: bool)
        ensures
            r == bit32(self.0, 26),
    {
        test_bit32(self.0, 26)
    }

    /// Supports an activity LED (bit 25).
    pub fn sal(&self) -> (r: bool)
        ensures
            r == bit32(self.0, 25),
    {
        test_bit32(self.0, 25)
    }

    /// Supports command list override (bit 24).
    pub fn sclo(&self) -> (r: bool)
        ensures
            r == bit32(self.0, 24),
    {
        test_bit32(self.0, 24)
    }

    /// Supports AHCI mode only (bit 18).
    pub fn sam(&self) -> (r: bool)
        ensures
            r == bit32(self.0, 18),
    {
        test_bit32(self.0, 18)
    }

    /// Supports a port multiplier (bit 17).
    pub fn spm(&self) -> (r: bool)
        ensures
            r == bit32(self.0, 17),
    {
        test_bit32(self.0, 17)
    }

    /// Supports FIS-based switching (bit 16).
    pub fn fbss(&self) -> (r: bool)
        ensures
            r == bit32(self.0, 16),
    {
        test_bit32(self.0, 16)
    }

    /// PIO multiple DRQ block (bit 15).
    pub fn pmd(&self) -> (r: bool)
        ensures
            r == bit32(self.0, 15),
    {
        test_bit32(self.0, 15)
    }

    /// Slumber state capable (bit 14).
    pub fn ssc(&self) -> (r: bool)
        ensures
            r == bit32(self.0, 14),
    {
        test_bit32(self.0, 14)
    }

    /// Partial state capable (bit 13).
    pub fn psc(&self) -> (r: bool)
        ensures
            r == bit32(self.0, 13),
    {
        test_bit32(self.0, 13)
    }

    /// Supports command completion coalescing (bit 7).
    pub fn cccs(&self) -> (r: bool)
        ensures
            r == bit32(self.0, 7),
    {
        test_bit32(self.0, 7)
    }

    /// Supports enclosure management (bit 6).
    pub fn ems(&self) -> (r: bool)
        ensures
            r == bit32(self.0, 6),
    {
        test_bit32(self.0, 6)
    }

    /// Supports external SATA (bit 5).
    pub fn sxs(&self) -> (r: bool)
        ensures
            r == bit32(self.0, 5),
    {
        test_bit32(self.0, 5)
    }

    /// The interface speed field: bits 20..=23.
    pub open spec fn iss_bits(&self) -> u8 {
        ((self.0 >> 20u32) & 0xF) as u8
    }

    /// The interface speed, when the field names one.
    pub fn iss(&self) -> (r: Option<InterfaceSpeed>)
        ensures
            r == interface_speed_of(self.iss_bits()),
    {
        let byte: u8 = ((self.0 >> 20u32) & 0b1111) as u8;
        match InterfaceSpeed::try_from(byte) {
            Ok(s) => Some(s),
            Err(_) => None,
        }
    }

    /// The number of command slots minus one: bits 8..=12.
    pub open spec fn ncs_spec(&self) -> u8 {
        ((self.0 >> 8u32) & 0x1F) as u8
    }

    /// The number of ports minus one: bits 0..=4.
    pub open spec fn np_spec(&self) -> u8 {
        (self.0 & 0x1F) as u8
    }

    /// The number of command slots minus one.
    pub fn ncs(&self) -> (r: u8)
        ensures
            r == self.ncs_spec(),
            r < 32,
    {
        proof {
            lemma_five_bit_fields(self.0);
        }
        ((self.0 >> 8u32) & 0b11111) as u8
    }

    /// The number of command slots.
    pub fn command_slot_count(&self) -> (r: u8)
        ensures
            r == self.ncs_spec() + 1,
            1 <= r <= 32,
    {
        self.ncs() + 1
    }

    /// The number of ports minus one.
    pub fn np(&self) -> (r: u8)
        ensures
            r == self.np_spec(),
            r < 32,
    {
        proof {
            lemma_five_bit_fields(self.0);
        }
        (self.0 & 0b11111) as u8
    }

    /// The number of ports.
    pub fn port_count(&self) -> (r: u8)
        ensures
            r == self.np_spec() + 1,
            1 <= r <= 32,
    {
        self.np() + 1
    }
}

proof fn lemma_five_bit_fields(x: u32)
    by (bit_vector)
    ensures
        (x >> 8u32) & 0x1F < 32,
        x & 0x1F < 32,
        (x >> 20u32) & 0xF < 16,
        (x >> 8u32) & 0xF < 16,
        (x >> 4u32) & 0xF < 16,
        x & 0xF < 16,
        x & 0xFF < 256,
{
}

/// The SATA interface speed generations.
#[derive(Debug, Clone, Copy, PartialEq, Eq, Structural)]
pub enum InterfaceSpeed {
    Gen1,
    Gen2,
    Gen3,
}

/// The interface speed that a field value names: 1, 2 and 3 for the three generations.
pub open spec fn interface_speed_of(value: u8) -> Option<InterfaceSpeed> {
    if value == 1 {
        Some(InterfaceSpeed::Gen1)
    } else if value == 2 {
        Some(InterfaceSpeed::Gen2)
    } else if value == 3 {
        Some(InterfaceSpeed::Gen3)
    } else {
        None
    }
}

impl InterfaceSpeed {
    /// The speed that `value` names, or `value` itself when it names none.
    pub fn try_from(value: u8) -> (r: Result<Self, u8>)
        ensures
            match interface_speed_of(value) {
                Some(s) => r == Ok::<Self, u8>(s),
                None => r == Err::<Self, u8>(value),
            },
    {
        match value {
            1 => Ok(InterfaceSpeed::Gen1),
            2 => Ok(InterfaceSpeed::Gen2),
            3 => Ok(InterfaceSpeed::Gen3),
            x => Err(x),
        }
    }
}

/// The ports implemented register (PI): one bit per port.
#[derive(Debug, Clone, Copy)]
pub struct ImplementedPorts(pub u32);

impl ImplementedPorts {
    /// Whether port `index` is implemented.
    pub fn is_port_implemented(&self, index: usize) -> (r: bool)
        requires
            index < 32,
        ensures
            r == bit32(self.0, index as u32),
    {
        test_bit32(self.0, index as u32)
    }
}

/// Bit 31 of the global HBA control register: AHCI enable.
pub const GHC_AE: u32 = 0x8000_0000;

/// Bit 2: MSI revert to single message.
pub const GHC_MRSM: u32 = 0x4;

/// Bit 1: interrupt enable.
pub const GHC_IE: u32 = 0x2;

/// Bit 0: HBA reset.
pub const GHC_HR: u32 = 0x1;

/// The global HBA control register (GHC), by its value.
#[derive(Debug, Clone, Copy)]
pub struct GlobalHbaControl {
    address: u64,
    value: u32,
    written: bool,
}

impl GlobalHbaControl {
    /// The register's address.
    pub closed spec fn address_spec(&self) -> u64 {
        self.address
    }

    /// The register's value: as read, or as last written.
    pub closed spec fn value_spec(&self) -> u32 {
        self.value
    }

    /// Whether a method wrote the register.
    pub closed spec fn written_spec(&self) -> bool {
        self.written
    }

    /// The register at `address`, holding `value`, not yet written.
    pub fn new(address: u64, value: u32) -> (r: Self)
        ensures
            r.address_spec() == address,
            r.value_spec() == value,
            !r.written_spec(),
    {
        Self { address, value, written: false }
    }

    /// The register's address.
    pub fn address(&self) -> (r: u64)
        ensures
            r == self.address_spec(),
    {
        self.address
    }

    /// The register's value.
    pub fn read(&self) -> (r: u32)
        ensures
            r == self.value_spec(),
    {
        self.value
    }

    /// Whether a method wrote the register; the caller then stores `read()` back.
    pub fn written(&self) -> (r: bool)
        ensures
            r == self.written_spec(),
    {
        self.written
    }

    fn write(&mut self, val: u32)
        ensures
            final(self).address_spec() == old(self).address_spec(),
            final(self).value_spec() == val,
            final(self).written_spec(),
    {
        self.value = val;
        self.written = true;
    }

    /// AHCI enable.
    pub fn ae(&self) -> (r: bool)
        ensures
            r == (self.value_spec() & GHC_AE != 0),
    {
        self.read() & GHC_AE != 0
    }

    /// Switches the controller to AHCI mode: when it is not on already, writes the AHCI
    /// enable bit alone, since no other register may be touched outside AHCI mode.
    pub fn enable_ahci_mode(&mut self)
        ensures
            final(self).address_spec() == old(self).address_spec(),
            old(self).value_spec() & GHC_AE != 0 ==> *final(self) == *old(self),
            old(self).value_spec() & GHC_AE == 0 ==> final(self).value_spec() == GHC_AE
                && final(self).written_spec(),
    {
        if self.ae() {
            return;
        }
        self.write(GHC_AE);
    }

    /// Leaves AHCI mode: when it is on, writes zero to the register.
    pub fn disable_ahci_mode(&mut self)
        ensures
            final(self).address_spec() == old(self).address_spec(),
            old(self).value_spec() & GHC_AE == 0 ==> *final(self) == *old(self),
            old(self).value_spec() & GHC_AE != 0 ==> final(self).value_spec() == 0
                && final(self).written_spec(),
    {
        if !self.ae() {
            return;
        }
        self.write(0);
    }

    /// MSI revert to single message.
    pub fn mrsm(&self) -> (r: bool)
        ensures
            r == (self.value_spec() & GHC_MRSM != 0),
    {
        self.read() & GHC_MRSM != 0
    }

    /// Interrupt enable.
    pub fn ie(&self) -> (r: bool)
        ensures
            r == (self.value_spec() & GHC_IE != 0),
    {
        self.read() & GHC_IE != 0
    }

    /// Sets the interrupt enable bit.
    pub fn enable_interrupts(&mut self)
        ensures
            final(self).address_spec() == old(self).address_spec(),
            final(self).value_spec() == old(self).value_spec() | GHC_IE,
            final(self).written_spec(),
    {
        let v: u32 = self.read() | GHC_IE;
        self.write(v);
    }

    /// Clears the interrupt enable bit.
    pub fn disable_interrupts(&mut self)
        ensures
            final(self).address_spec() == old(self).address_spec(),
            final(self).value_spec() == old(self).value_spec() & !GHC_IE,
            final(self).written_spec(),
    {
        let v: u32 = self.read() & !GHC_IE;
        self.write(v);
    }

    /// HBA reset in progress.
    pub fn hr(&self) -> (r: bool)
        ensures
            r == (self.value_spec() & GHC_HR != 0),
    {
        self.read() & GHC_HR != 0
    }

    /// Sets the HBA reset bit.
    pub fn reset(&mut self)
        ensures
            final(self).address_spec() == old(self).address_spec(),
            final(self).value_spec() == old(self).value_spec() | GHC_HR,
            final(self).written_spec(),
    {
        let v: u32 = self.read() | GHC_HR;
        self.write(v);
    }
}

/// Bit 0 of the port command register: start.
pub const CMD_ST: u32 = 0x1;

/// Bit 4: FIS receive enable.
pub const CMD_FRE: u32 = 0x10;

/// Bit 14: FIS receive running.
pub const CMD_FR: u32 = 0x4000;

/// The command and status register of a port (PxCMD), by its value.
#[derive(Debug, Clone, Copy)]
pub struct PortCmd {
    address: u64,
    value: u32,
    written: bool,
}

impl PortCmd {
    /// The register's address.
    pub closed spec fn address_spec(&self) -> u64 {
        self.address
    }

    /// The register's value: as read, or as last written.
    pub closed spec fn value_spec(&self) -> u32 {
        self.value
    }

    /// Whether a method wrote the register.
    pub closed spec fn written_spec(&self) -> bool {
        self.written
    }

    /// The register at `address`, holding `value`, not yet written.
    pub fn new(address: u64, value: u32) -> (r: Self)
        ensures
            r.address_spec() == address,
            r.value_spec() == value,
            !r.written_spec(),
    {
        Self { address, value, written: false }
    }

    /// The register's address.
    pub fn address(&self) -> (r: u64)
        ensures
            r == self.address_spec(),
    {
        self.address
    }

    /// The register's value.
    pub fn read(&self) -> (r: u32)
        ensures
            r == self.value_spec(),
    {
        self.value
    }

    /// Whether a method wrote the register; the caller then stores `read()` back.
    pub fn written(&self) -> (r: bool)
        ensures
            r == self.written_spec(),
    {
        self.written
    }

    fn write(&mut self, val: u32)
        ensures
            final(self).address_spec() == old(self).address_spec(),
            final(self).value_spec() == val,
            final(self).written_spec(),
    {
        self.value = val;
        self.written = true;
    }

    /// The start bit: the port processes its command list.
    pub fn st(&self) -> (r: bool)
        ensures
            r == (self.value_spec() & CMD_ST != 0),
    {
        self.read() & CMD_ST != 0
    }

    /// Sets the start bit.
    pub fn start(&mut self)
        ensures
            final(self).address_spec() == old(self).address_spec(),
            final(self).value_spec() == old(self).value_spec() | CMD_ST,
            final(self).written_spec(),
    {
        let v: u32 = self.read() | CMD_ST;
        self.write(v);
    }

    /// Clears the start bit.
    pub fn stop(&mut self)
        ensures
            final(self).address_spec() == old(self).address_spec(),
            final(self).value_spec() == old(self).value_spec() & !CMD_ST,
            final(self).written_spec(),
    {
        let v: u32 = self.read() & !CMD_ST;
        self.write(v);
    }

    /// The FIS receive enable bit.
    pub fn fre(&self) -> (r: bool)
        ensures
            r == (self.value_spec() & CMD_FRE != 0),
    {
        self.read() & CMD_FRE != 0
    }

    /// Sets the FIS receive enable bit.
    pub fn enable_fre(&mut self)
        ensures
            final(self).address_spec() == old(self).address_spec(),
            final(self).value_spec() == old(self).value_spec() | CMD_FRE,
            final(self).written_spec(),
    {
        let v: u32 = self.read() | CMD_FRE;
        self.write(v);
    }

    /// Clears the FIS receive enable bit.
    pub fn disable_fre(&mut self)
        ensures
            final(self).address_spec() == old(self).address_spec(),
            final(self).value_spec() == old(self).value_spec() & !CMD_FRE,
            final(self).written_spec(),
    {
        let v: u32 = self.read() & !CMD_FRE;
        self.write(v);
    }

    /// Clears the FIS receive enable bit.
    pub fn disable_fis_receive(&mut self)
        ensures
            final(self).address_spec() == old(self).address_spec(),
            final(self).value_spec() == old(self).value_spec() & !CMD_FRE,
            final(self).written_spec(),
    {
        let v: u32 = self.read() & !CMD_FRE;
        self.write(v);
    }

    /// The FIS receive running bit.
    pub fn fr(&self) -> (r: bool)
        ensures
            r == (self.value_spec() & CMD_FR != 0),
    {
        self.read() & CMD_FR != 0
    }
}

/// Setting a register bit makes it read back set, clearing it makes it read back clear,
/// and neither touches another bit: what `start`, `stop`, `enable_fre`, `disable_fre`,
/// `enable_interrupts`, `disable_interrupts` and `reset` write is read back by `st`, `fre`,
/// `ie` and `hr`.
pub proof fn lemma_register_bit(v: u32, i: u32, j: u32)
    requires
        i < 32,
        j < 32,
    ensures
        (v | (1u32 << i)) & (1u32 << i) != 0,
        (v & !(1u32 << i)) & (1u32 << i) == 0,
        i != j ==> ((v | (1u32 << i)) & (1u32 << j) != 0) == (v & (1u32 << j) != 0),
        i != j ==> ((v & !(1u32 << i)) & (1u32 << j) != 0) == (v & (1u32 << j) != 0),
{
    crate::bits::lemma_bit32_set(v, i, i);
    crate::bits::lemma_bit32_clear(v, i, i);
    crate::bits::lemma_bit32_set(v, i, j);
    crate::bits::lemma_bit32_clear(v, i, j);
}

/// The task file data register of a port (PxTFD).
#[derive(Debug, Clone, Copy)]
pub struct TaskFileData(pub u32);

impl TaskFileData {
    /// The error byte (bits 0..=7), when it is not zero.
    pub fn error(&self) -> (r: Option<u8>)
        ensures
            (self.0 & 0xFF) == 0 ==> r is None,
            (self.0 & 0xFF) != 0 ==> r == Some((self.0 & 0xFF) as u8),
    {
        proof {
            lemma_five_bit_fields(self.0);
        }
        let err: u8 = (self.0 & 0xFF) as u8;
        if err != 0 {
            Some(err)
        } else {
            None
        }
    }

    /// The busy bit (bit 7).
    pub fn busy(&self) -> (r: bool)
        ensures
            r == bit32(self.0, 7),
    {
        test_bit32(self.0, 7)
    }

    /// The data transfer requested bit (bit 3).
    pub fn transfer_requested(&self) -> (r: bool)
        ensures
            r == bit32(self.0, 3),
    {
        test_bit32(self.0, 3)
    }

    /// The error bit of the status byte (bit 0).
    pub fn transfer_error(&self) -> (r: bool)
        ensures
            r == bit32(self.0, 0),
    {
        test_bit32(self.0, 0)
    }
}

/// The interface power management state of a port.
#[derive(Debug, Clone, Copy, PartialEq, Eq, Structural)]
pub enum IpmState {
    Active,
    Partial,
    Slumber,
    DevSleep,
}

/// What the port detected on its link.
#[derive(Debug, Clone, Copy, PartialEq, Eq, Structural)]
pub enum DeviceDetection {
    NoDeviceDetected,
    DeviceDetected,
    PhyCommunicationEstablished,
    PhyOfflineMode,
}

/// The SATA status register of a port (PxSSTS), decoded.
#[derive(Debug, Clone, Copy)]
pub struct SataStatus {
    pub ipm: Option<IpmState>,
    pub spd: Option<InterfaceSpeed>,
    pub det: DeviceDetection,
}

/// The power state that the IPM field names: `Some(None)` for no device or no
/// communication, `None` for a reserved value.
pub open spec fn ipm_of(bits: u32) -> Option<Option<IpmState>> {
    if bits == 0 {
        Some(None)
    } else if bits == 1 {
        Some(Some(IpmState::Active))
    } else if bits == 2 {
        Some(Some(IpmState::Partial))
    } else if bits == 6 {
        Some(Some(IpmState::Slumber))
    } else if bits == 8 {
        Some(Some(IpmState::DevSleep))
    } else {
        None
    }
}

/// The speed that the SPD field names: `Some(None)` for none negotiated, `None` for a
/// reserved value.
pub open spec fn spd_of(bits: u32) -> Option<Option<InterfaceSpeed>> {
    if bits == 0 {
        Some(None)
    } else if bits == 1 {
        Some(Some(InterfaceSpeed::Gen1))
    } else if bits == 2 {
        Some(Some(InterfaceSpeed::Gen2))
    } else if bits == 3 {
        Some(Some(InterfaceSpeed::Gen3))
    } else {
        None
    }
}

/// The detection state that the DET field names, `None` for a reserved value.
pub open spec fn det_of(bits: u32) -> Option<DeviceDetection> {
    if bits == 0 {
        Some(DeviceDetection::NoDeviceDetected)
    } else if bits == 1 {
        Some(DeviceDetection::DeviceDetected)
    } else if bits == 3 {
        Some(DeviceDetection::PhyCommunicationEstablished)
    } else if bits == 4 {
        Some(DeviceDetection::PhyOfflineMode)
    } else {
        None
    }
}

/// The decoded status register `value`: IPM in bits 8..=11, SPD in bits 4..=7, DET in
/// bits 0..=3; `None` when a field holds a reserved value.
pub open spec fn sata_status_of(value: u32) -> Option<SataStatus> {
    match (ipm_of((value >> 8u32) & 0xF), spd_of((value >> 4u32) & 0xF), det_of(value & 0xF)) {
        (Some(ipm), Some(spd), Some(det)) => Some(SataStatus { ipm, spd, det }),
        _ => None,
    }
}

impl SataStatus {
    /// Decodes a status register value; the value itself is the error when a field holds
    /// a reserved value.
    pub fn try_from(value: u32) -> (r: Result<Self, u32>)
        ensures
            match sata_status_of(value) {
                Some(st) => r matches Ok(x) && x == st,
                None => r == Err::<Self, u32>(value),
            },
    {
        let ipm_bits: u32 = (value >> 8u32) & 0b1111;
        let spd_bits: u32 = (value >> 4u32) & 0b1111;
        let det_bits: u32 = value & 0b1111;
        let ipm = match ipm_bits {
            0 => None,
            1 => Some(IpmState::Active),
            2 => Some(IpmState::Partial),
            6 => Some(IpmState::Slumber),
            8 => Some(IpmState::DevSleep),
            _ => {
                return Err(value);
            },
        };
        let spd = match spd_bits {
            0 => None,
            1 => Some(InterfaceSpeed::Gen1),
            2 => Some(InterfaceSpeed::Gen2),
            3 => Some(InterfaceSpeed::Gen3),
            _ => {
                return Err(value);
            },
        };
        let det = match det_bits {
            0 => DeviceDetection::NoDeviceDetected,
            1 => DeviceDetection::DeviceDetected,
            3 => DeviceDetection::PhyCommunicationEstablished,
            4 => DeviceDetection::PhyOfflineMode,
            _ => {
                return Err(value);
            },
        };
        Ok(Self { ipm, spd, det })
    }
}

/// The SATA error register of a port (PxSERR).
#[derive(Debug, Clone, Copy)]
pub struct SataError(pub u32);

impl SataError {
    /// Device exchanged (bit 26).
    pub fn exchanged(&self) -> (r: bool)
        ensures
            r == bit32(self.0, 26),
    {
        test_bit32(self.0, 26)
    }

    /// Unknown FIS type (bit 25).
    pub fn unknown_fis_type(&self) -> (r: bool)
        ensures
            r == bit32(self.0, 25),
    {
        test_bit32(self.0, 25)
    }

    /// Transport state transition error (bit 24).
    pub fn transport_state_transition_error(&self) -> (r: bool)
        ensures
            r == bit32(self.0, 24),
    {
        test_bit32(self.0, 24)
    }

    /// Link sequence error (bit 23).
    pub fn link_sequence_error(&self) -> (r: bool)
        ensures
            r == bit32(self.0, 23),
    {
        test_bit32(self.0, 23)
    }

    /// Handshake error (bit 22).
    pub fn handshake_error(&self) -> (r: bool)
        ensures
            r == bit32(self.0, 22),
    {
        test_bit32(self.0, 22)
    }

    /// CRC error (bit 21).
    pub fn crc_error(&self) -> (r: bool)
        ensures
            r == bit32(self.0, 21),
    {
        test_bit32(self.0, 21)
    }

    /// Disparity error (bit 20).
    pub fn disparity_error(&self) -> (r: bool)
        ensures
            r == bit32(self.0, 20),
    {
        test_bit32(self.0, 20)
    }

    /// 10B to 8B decode error (bit 19).
    pub fn decode_10b_to_8b_error(&self) -> (r: bool)
        ensures
            r == bit32(self.0, 19),
    {
        test_bit32(self.0, 19)
    }

    /// COMWAKE detected (bit 18).
    pub fn comm_wake(&self) -> (r: bool)
        ensures
            r == bit32(self.0, 18),
    {
        test_bit32(self.0, 18)
    }

    /// Phy internal error (bit 17).
    pub fn phy_internal_error(&self) -> (r: bool)
        ensures
            r == bit32(self.0, 17),
    {
        test_bit32(self.0, 17)
    }

    /// PhyRdy change (bit 16).
    pub fn phy_rdy_change(&self) -> (r: bool)
        ensures
            r == bit32(self.0, 16),
    {
        test_bit32(self.0, 16)
    }

    /// Internal error (bit 11).
    pub fn internal_error(&self) -> (r: bool)
        ensures
            r == bit32(self.0, 11),
    {
        test_bit32(self.0, 11)
    }

    /// Protocol error (bit 10).
    pub fn protocol_error(&self) -> (r: bool)
        ensures
            r == bit32(self.0, 10),
    {
        test_bit32(self.0, 10)
    }

    /// Persistent communication or data integrity error (bit 9).
    pub fn persistent_communication_or_data_integrity_error(&self) -> (r: bool)
        ensures
            r == bit32(self.0, 9),
    {
        test_bit32(self.0, 9)
    }

    /// Transient data integrity error (bit 8).
    pub fn transient_data_integrity_error(&self) -> (r: bool)
        ensures
            r == bit32(self.0, 8),
    {
        test_bit32(self.0, 8)
    }

    /// Recovered communications error (bit 1).
    pub fn recovered_communications_error(&self) -> (r: bool)
        ensures
            r == bit32(self.0, 1),
    {
        test_bit32(self.0, 1)
    }

    /// Recovered data integrity error (bit 0).
    pub fn recovered_data_integrity_error(&self) -> (r: bool)
        ensures
            r == bit32(self.0, 0),
    {
        test_bit32(self.0, 0)
    }
}

/// The frame information structure types.
#[derive(Debug, Clone, Copy, PartialEq, Eq, Structural)]
pub enum FisType {
    RegisterH2D,
    RegisterD2H,
    ActivateDma,
    SetupDma,
    Data,
    Bist,
    SetupPio,
    DeviceBits,
}

impl FisType {
    /// The type byte.
    pub open spec fn spec_value(self) -> u8 {
        match self {
            FisType::RegisterH2D => 0x27,
            FisType::RegisterD2H => 0x34,
            FisType::ActivateDma => 0x39,
            FisType::SetupDma => 0x41,
            FisType::Data => 0x46,
            FisType::Bist => 0x58,
            FisType::SetupPio => 0x5F,
            FisType::DeviceBits => 0xA1,
        }
    }

    /// The type byte.
    pub fn value(self) -> (r: u8)
        ensures
            r == self.spec_value(),
    {
        match self {
            FisType::RegisterH2D => 0x27,
            FisType::RegisterD2H => 0x34,
            FisType::ActivateDma => 0x39,
            FisType::SetupDma => 0x41,
            FisType::Data => 0x46,
            FisType::Bist => 0x58,
            FisType::SetupPio => 0x5F,
            FisType::DeviceBits => 0xA1,
        }
    }
}

/// ATA command READ DMA EXT.
pub const ATA_READ_DMA_EXT: u8 = 0x25;

/// ATA command IDENTIFY DEVICE.
pub const ATA_IDENTIFY_DEVICE: u8 = 0xEC;

/// The device byte with the LBA mode bit (bit 6) set.
pub const DEVICE_LBA_MODE: u8 = 0x40;

/// The 64 bytes of a host-to-device register FIS that issues `command` with the LBA mode
/// bit: type, command flag (0x80), command, the six LBA bytes and the two count bytes in
/// their places; every other byte is zero.
pub open spec fn register_fis(command: u8, lba: u64, count: u16) -> Seq<u8> {
    Seq::new(64, |i: int|
        if i == 0 { 0x27u8 }
        else if i == 1 { 0x80u8 }
        else if i == 2 { command }
        else if i == 4 { lba as u8 }
        else if i == 5 { (lba >> 8u64) as u8 }
        else if i == 6 { (lba >> 16u64) as u8 }
        else if i == 7 { 0x40u8 }
        else if i == 8 { (lba >> 24u64) as u8 }
        else if i == 9 { (lba >> 32u64) as u8 }
        else if i == 10 { (lba >> 40u64) as u8 }
        else if i == 12 { count as u8 }
        else if i == 13 { (count >> 8u16) as u8 }
        else { 0u8 })
}

/// The register FIS for `command` at `lba` over `count` sectors.
pub fn register_fis_for(command: u8, lba: u64, count: u16) -> (r: [u8; 64])
    ensures
        r@ == register_fis(command, lba, count),
{
    let mut fis: [u8; 64] = [0u8; 64];
    fis[0] = FisType::RegisterH2D.value();
    fis[1] = 0x80;
    fis[2] = command;
    fis[4] = lba as u8;
    fis[5] = (lba >> 8u64) as u8;
    fis[6] = (lba >> 16u64) as u8;
    fis[7] = DEVICE_LBA_MODE;
    fis[8] = (lba >> 24u64) as u8;
    fis[9] = (lba >> 32u64) as u8;
    fis[10] = (lba >> 40u64) as u8;
    fis[12] = count as u8;
    fis[13] = (count >> 8u16) as u8;
    assert(fis@ =~= register_fis(command, lba, count));
    fis
}

/// Largest byte count minus one that a physical region descriptor can hold (22 bits).
pub const PRDT_COUNT_MASK: u32 = 0x3F_FFFF;

/// A physical region descriptor: the address of a data buffer and its byte count minus one.
#[derive(Debug, Clone, Copy)]
pub struct Prdt {
    pub dba: u32,
    pub dbau: u32,
    pub reserved: u32,
    pub dw3: u32,
}

impl Prdt {
    /// The descriptor for the word-aligned buffer at `address` of `count + 1` bytes.
    pub fn new(address: u64, count: u32) -> (r: Self)
        requires
            address % 2 == 0,
            count <= PRDT_COUNT_MASK,
        ensures
            r.dba == address as u32,
            r.dbau == (address >> 32u64) as u32,
            r.reserved == 0,
            r.dw3 == count,
    {
        Self { dba: address as u32, dbau: (address >> 32u64) as u32, reserved: 0, dw3: count }
    }
}

/// An entry of a port's command list.
#[derive(Debug, Clone, Copy)]
pub struct CommandHeader {
    pub flags: u16,
    pub prdtl: u16,
    pub prdbc: u32,
    pub ctba: u32,
    pub ctbau: u32,
    pub reserved: [u32; 4],
}

/// The command header after pointing `h` at a command table at `address` with `prdt_count`
/// region descriptors: flags 5 (a five-dword FIS), the count and the address's low half;
/// the high half only where the controller takes 64-bit addresses.
pub open spec fn linked_header(h: CommandHeader, prdt_count: u16, address: u64, s64a: bool) -> CommandHeader {
    CommandHeader {
        flags: 5,
        prdtl: prdt_count,
        ctba: address as u32,
        ctbau: if s64a { (address >> 32u64) as u32 } else { h.ctbau },
        ..h
    }
}

/// The command header with every field zero.
pub open spec fn zero_header(h: CommandHeader) -> bool {
    &&& h.flags == 0
    &&& h.prdtl == 0
    &&& h.prdbc == 0
    &&& h.ctba == 0
    &&& h.ctbau == 0
    &&& h.reserved@ == seq![0u32, 0u32, 0u32, 0u32]
}

/// Number of entries in a command list.
pub const COMMAND_SLOTS: usize = 32;

/// The command list of a port: 32 command headers.
#[derive(Debug)]
pub struct CommandList {
    data: Vec<CommandHeader>,
}

impl CommandList {
    /// The headers, by slot.
    pub closed spec fn headers(&self) -> Seq<CommandHeader> {
        self.data@
    }

    /// The list of 32 zero headers.
    pub fn new() -> (r: Self)
        ensures
            r.headers().len() == COMMAND_SLOTS,
            forall|i: int| 0 <= i < COMMAND_SLOTS ==> zero_header(#[trigger] r.headers()[i]),
    {
        let mut data: Vec<CommandHeader> = Vec::new();
        while data.len() < COMMAND_SLOTS
            invariant
                data.len() <= COMMAND_SLOTS,
                forall|i: int| 0 <= i < data.len() ==> zero_header(#[trigger] data@[i]),
            decreases COMMAND_SLOTS - data.len(),
        {
            let h = CommandHeader { flags: 0, prdtl: 0, prdbc: 0, ctba: 0, ctbau: 0, reserved: [0u32; 4] };
            assert(h.reserved@ =~= seq![0u32, 0u32, 0u32, 0u32]);
            data.push(h);
        }
        Self { data }
    }

    /// The header of `slot`.
    pub fn get(&self, slot: usize) -> (r: CommandHeader)
        requires
            slot < self.headers().len(),
        ensures
            r == self.headers()[slot as int],
    {
        self.data[slot]
    }

    /// Points the header of `slot` at a command table at `address` with `prdt_count`
    /// region descriptors.
    fn link(&mut self, slot: usize, prdt_count: u16, address: u64, s64a: bool)
        requires
            slot < old(self).headers().len(),
        ensures
            final(self).headers() == old(self).headers().update(
                slot as int,
                linked_header(old(self).headers()[slot as int], prdt_count, address, s64a),
            ),
    {
        let mut h = self.data[slot];
        h.flags = 5;
        h.prdtl = prdt_count;
        h.ctba = address as u32;
        if s64a {
            h.ctbau = (address >> 32u64) as u32;
        }
        self.data.set(slot, h);
    }
}

/// A command table: the command FIS, the ATAPI command and the region descriptors.
#[derive(Debug)]
pub struct CommandTable {
    pub cfis: [u8; 64],
    pub acmd: [u8; 16],
    pub reserved: [u8; 48],
    pub prdts: Vec<Prdt>,
}

impl CommandTable {
    /// The table with `cfis`, `acmd` and a copy of `prdts`; the reserved bytes are zero.
    pub fn new(cfis: [u8; 64], acmd: [u8; 16], prdts: &[Prdt]) -> (r: Self)
        ensures
            r.cfis == cfis,
            r.acmd == acmd,
            r.reserved@ == Seq::new(48, |i: int| 0u8),
            r.prdts@ == prdts@,
    {
        let mut command_table = Self::zero(prdts.len());
        command_table.cfis = cfis;
        command_table.acmd = acmd;
        let mut i: usize = 0;
        while i < prdts.len()
            invariant
                0 <= i <= prdts@.len(),
                command_table.prdts@.len() == prdts@.len(),
                command_table.cfis == cfis,
                command_table.acmd == acmd,
                command_table.reserved@ == Seq::new(48, |i: int| 0u8),
                forall|j: int| 0 <= j < i ==> command_table.prdts@[j] == prdts@[j],
            decreases prdts@.len() - i,
        {
            command_table.prdts.set(i, prdts[i]);
            i = i + 1;
        }
        assert(command_table.prdts@ =~= prdts@);
        command_table
    }

    /// The zero table with room for `prdt_count` region descriptors.
    fn zero(prdt_count: usize) -> (r: Self)
        ensures
            r.cfis@ == Seq::new(64, |i: int| 0u8),
            r.acmd@ == Seq::new(16, |i: int| 0u8),
            r.reserved@ == Seq::new(48, |i: int| 0u8),
            r.prdts@.len() == prdt_count,
    {
        let mut prdts: Vec<Prdt> = Vec::new();
        while prdts.len() < prdt_count
            invariant
                prdts.len() <= prdt_count,
            decreases prdt_count - prdts.len(),
        {
            prdts.push(Prdt { dba: 0, dbau: 0, reserved: 0, dw3: 0 });
        }
        let r = Self { cfis: [0u8; 64], acmd: [0u8; 16], reserved: [0u8; 48], prdts };
        assert(r.cfis@ =~= Seq::new(64, |i: int| 0u8));
        assert(r.acmd@ =~= Seq::new(16, |i: int| 0u8));
        assert(r.reserved@ =~= Seq::new(48, |i: int| 0u8));
        r
    }
}

/// The area where a port receives the FISes that the device sends.
#[derive(Debug)]
pub struct FisReceiveArea(pub [u8; 256]);

impl FisReceiveArea {
    /// The zeroed area.
    pub fn new() -> (r: Self)
        ensures
            r.0@ == Seq::new(256, |i: int| 0u8),
    {
        let r = Self([0u8; 256]);
        assert(r.0@ =~= Seq::new(256, |i: int| 0u8));
        r
    }
}

/// Byte offset, in the identify data, of the 28-bit addressable sector count (words 60..=61).
pub const IDENTIFY_SECTORS_28: usize = 120;

/// Byte offset of the supported command sets word (word 83).
pub const IDENTIFY_FEATURES: usize = 166;

/// Byte offset of the 48-bit addressable sector count (words 100..=103).
pub const IDENTIFY_SECTORS_48: usize = 200;

/// Size of the identify data.
pub const IDENTIFY_SIZE: usize = 512;

/// What a device reports of itself.
#[derive(Debug, Clone, Copy)]
pub struct DeviceProperties {
    sector_count: u64,
}

/// The sector count that the identify data `data` gives: the 48-bit count when the
/// supported-features word with bit 10 or-ed in is not zero, which it never is, else the
/// 28-bit count.
pub open spec fn identify_sector_count(data: Seq<u8>) -> u64 {
    if u16_at(data, IDENTIFY_FEATURES as int) | 0x400 != 0 {
        u64_at(data, IDENTIFY_SECTORS_48 as int)
    } else {
        u32_at(data, IDENTIFY_SECTORS_28 as int) as u64
    }
}

impl DeviceProperties {
    /// The number of addressable sectors.
    pub closed spec fn sector_count_spec(&self) -> u64 {
        self.sector_count
    }

    /// The properties that a device's identify data gives.
    pub fn from_identify_data(data: &[u8]) -> (r: Self)
        requires
            data@.len() >= IDENTIFY_SIZE,
        ensures
            r.sector_count_spec() == identify_sector_count(data@),
    {
        let mut cur = Cursor::new(data);
        cur.skip(IDENTIFY_SECTORS_28);
        let sectors_28: u32 = cur.read_u32();
        cur.skip(IDENTIFY_FEATURES - IDENTIFY_SECTORS_28 - 4);
        let features: u16 = cur.read_u16();
        cur.skip(IDENTIFY_SECTORS_48 - IDENTIFY_FEATURES - 2);
        let sectors_48: u64 = cur.read_u64();
        let sector_count: u64 = if features | 0x400 != 0 {
            sectors_48
        } else {
            sectors_28 as u64
        };
        Self { sector_count }
    }

    /// The number of addressable sectors.
    pub fn sector_count(&self) -> (r: u64)
        ensures
            r == self.sector_count_spec(),
    {
        self.sector_count
    }
}

/// Offset of the first port's registers from the controller's base address.
pub const PORT_REGISTERS_OFFSET: u64 = 0x100;

/// Size of one port's register block.
pub const PORT_REGISTERS_SIZE: u64 = 0x80;

/// Number of ports that a controller can have.
pub const MAX_PORTS: usize = 32;

/// Highest base address whose register blocks fit in the address space.
pub const MAX_ABAR: u64 = 0xFFFF_FFFF_FFFF_EEFF;

/// The address of the registers of port `port` of the controller at `abar`.
pub open spec fn port_base(abar: u64, port: int) -> int {
    abar + PORT_REGISTERS_OFFSET + PORT_REGISTERS_SIZE * port
}

/// The sector size that commands transfer.
pub const SECTOR_SIZE: usize = 512;

/// One of the controller's ports, with the structures that it shares with the device.
#[derive(Debug)]
pub struct Port {
    base: u64,
    s64a: bool,
    command_list: CommandList,
    fis_receive_area: FisReceiveArea,
    command_table: CommandTable,
}

impl Port {
    /// The address of the port's registers.
    pub closed spec fn base_spec(&self) -> u64 {
        self.base
    }

    /// Whether the controller takes 64-bit addresses.
    pub closed spec fn s64a_spec(&self) -> bool {
        self.s64a
    }

    /// The command list.
    pub closed spec fn headers(&self) -> Seq<CommandHeader> {
        self.command_list.headers()
    }

    /// The command FIS of the command table.
    pub closed spec fn table_fis(&self) -> Seq<u8> {
        self.command_table.cfis@
    }

    /// The ATAPI command of the command table.
    pub closed spec fn table_acmd(&self) -> Seq<u8> {
        self.command_table.acmd@
    }

    /// The region descriptors of the command table.
    pub closed spec fn table_prdts(&self) -> Seq<Prdt> {
        self.command_table.prdts@
    }

    /// The bytes of the FIS receive area.
    pub closed spec fn fis_area(&self) -> Seq<u8> {
        self.fis_receive_area.0@
    }

    /// The port `port` of the controller at `abar`, with a zero command list, FIS area and
    /// an empty command table.
    pub fn init(abar: u64, port: usize, s64a: bool) -> (r: Self)
        requires
            abar <= MAX_ABAR,
            port < MAX_PORTS,
        ensures
            r.base_spec() == port_base(abar, port as int),
            r.s64a_spec() == s64a,
            r.headers().len() == COMMAND_SLOTS,
            forall|i: int| 0 <= i < COMMAND_SLOTS ==> zero_header(#[trigger] r.headers()[i]),
            r.table_fis() == Seq::new(64, |i: int| 0u8),
            r.table_acmd() == Seq::new(16, |i: int| 0u8),
            r.table_prdts().len() == 0,
            r.fis_area() == Seq::new(256, |i: int| 0u8),
    {
        let base: u64 = abar + PORT_REGISTERS_OFFSET + PORT_REGISTERS_SIZE * (port as u64);
        let command_list = CommandList::new();
        let fis_receive_area = FisReceiveArea::new();
        let command_table = CommandTable::new([0u8; 64], [0u8; 16], &[]);
        proof {
            assert(command_table.prdts@.len() == 0);
        }
        let r = Self { base, s64a, command_list, fis_receive_area, command_table };
        assert(r.table_fis() =~= Seq::new(64, |i: int| 0u8));
        assert(r.table_acmd() =~= Seq::new(16, |i: int| 0u8));
        r
    }

    /// The address of the port's registers.
    pub fn base(&self) -> (r: u64)
        ensures
            r == self.base_spec(),
    {
        self.base
    }

    /// Whether the controller takes 64-bit addresses.
    pub fn s64a(&self) -> (r: bool)
        ensures
            r == self.s64a_spec(),
    {
        self.s64a
    }

    /// The command list.
    pub fn command_list(&self) -> (r: &CommandList)
        ensures
            r.headers() == self.headers(),
    {
        &self.command_list
    }

    /// The command table.
    pub fn command_table(&self) -> (r: &CommandTable)
        ensures
            r.cfis@ == self.table_fis(),
            r.acmd@ == self.table_acmd(),
            r.prdts@ == self.table_prdts(),
    {
        &self.command_table
    }

    /// The FIS receive area.
    pub fn fis_receive_area(&self) -> (r: &FisReceiveArea)
        ensures
            r.0@ == self.fis_area(),
    {
        &self.fis_receive_area
    }

    /// The two halves of a base address that `align_mask` says is aligned, as the port's
    /// register pairs take them: the low half, and the high half where the controller takes
    /// 64-bit addresses.
    fn address_halves(&self, address: u64) -> (r: (u32, Option<u32>))
        requires
            self.s64a_spec() || address >> 32u64 == 0,
        ensures
            r.0 == address as u32,
            r.1 == if self.s64a_spec() { Some((address >> 32u64) as u32) } else { None::<u32> },
    {
        let lower: u32 = address as u32;
        let upper: u32 = (address >> 32u64) as u32;
        if self.s64a {
            (lower, Some(upper))
        } else {
            (lower, None)
        }
    }

    /// The values for the command list base register pair (PxCLB, PxCLBU) for a command list
    /// at the 1 KiB-aligned `address`.
    pub fn clb_words(&self, address: u64) -> (r: (u32, Option<u32>))
        requires
            address % 1024 == 0,
            self.s64a_spec() || address >> 32u64 == 0,
        ensures
            r.0 == address as u32,
            r.1 == if self.s64a_spec() { Some((address >> 32u64) as u32) } else { None::<u32> },
    {
        self.address_halves(address)
    }

    /// The values for the FIS base register pair (PxFB, PxFBU) for a receive area at the
    /// 256-byte-aligned `address`.
    pub fn fb_words(&self, address: u64) -> (r: (u32, Option<u32>))
        requires
            address % 256 == 0,
            self.s64a_spec() || address >> 32u64 == 0,
        ensures
            r.0 == address as u32,
            r.1 == if self.s64a_spec() { Some((address >> 32u64) as u32) } else { None::<u32> },
    {
        self.address_halves(address)
    }

    /// Prepares command slot 0 to issue `cfis` with one region descriptor for the buffer at
    /// `buffer_address` of `buffer_len` bytes, the command table standing at
    /// `table_address`.
    fn prepare_command(&mut self, cfis: [u8; 64], buffer_address: u64, buffer_len: usize, table_address: u64)
        requires
            0 < buffer_len <= PRDT_COUNT_MASK + 1,
            buffer_address % 2 == 0,
            old(self).s64a_spec() || table_address >> 32u64 == 0,
            old(self).headers().len() == COMMAND_SLOTS,
        ensures
            final(self).base_spec() == old(self).base_spec(),
            final(self).s64a_spec() == old(self).s64a_spec(),
            final(self).table_fis() == cfis@,
            final(self).table_acmd() == Seq::new(16, |i: int| 0u8),
            final(self).table_prdts().len() == 1,
            final(self).table_prdts()[0] == (Prdt {
                dba: buffer_address as u32,
                dbau: (buffer_address >> 32u64) as u32,
                reserved: 0,
                dw3: (buffer_len - 1) as u32,
            }),
            final(self).headers() == old(self).headers().update(
                0,
                linked_header(old(self).headers()[0], 1, table_address, old(self).s64a_spec()),
            ),
    {
        let acmd: [u8; 16] = [0u8; 16];
        let buffer_size: u32 = (buffer_len as u32) - 1;
        let prdts: [Prdt; 1] = [Prdt::new(buffer_address, buffer_size)];
        self.command_table = CommandTable::new(cfis, acmd, &prdts);
        assert(self.table_acmd() =~= Seq::new(16, |i: int| 0u8));
        self.command_list.link(0, 1, table_address, self.s64a);
    }

    /// Prepares command slot 0 to read `sector_count` sectors from `lba` into the buffer at
    /// `buffer_address` of `buffer_len` bytes, with the command table standing at
    /// `table_address`: a READ DMA EXT register FIS, one region descriptor for the whole
    /// buffer, and the slot's header pointed at the table. The caller places the list and
    /// the table and issues the slot.
    pub fn read(
        &mut self,
        buffer_address: u64,
        buffer_len: usize,
        lba: u64,
        sector_count: u16,
        table_address: u64,
    ) -> (r: Result<(), &'static str>)
        requires
            0 < buffer_len <= PRDT_COUNT_MASK + 1,
            buffer_len % SECTOR_SIZE == 0,
            buffer_address % 2 == 0,
            old(self).s64a_spec() || table_address >> 32u64 == 0,
            old(self).headers().len() == COMMAND_SLOTS,
        ensures
            r is Ok,
            final(self).base_spec() == old(self).base_spec(),
            final(self).s64a_spec() == old(self).s64a_spec(),
            final(self).table_fis() == register_fis(ATA_READ_DMA_EXT, lba, sector_count),
            final(self).table_acmd() == Seq::new(16, |i: int| 0u8),
            final(self).table_prdts().len() == 1,
            final(self).table_prdts()[0] == (Prdt {
                dba: buffer_address as u32,
                dbau: (buffer_address >> 32u64) as u32,
                reserved: 0,
                dw3: (buffer_len - 1) as u32,
            }),
            final(self).headers() == old(self).headers().update(
                0,
                linked_header(old(self).headers()[0], 1, table_address, old(self).s64a_spec()),
            ),
    {
        let fis = register_fis_for(ATA_READ_DMA_EXT, lba, sector_count);
        self.prepare_command(fis, buffer_address, buffer_len, table_address);
        Ok(())
    }

    /// Prepares command slot 0 to identify the device into the 512-byte buffer at
    /// `buffer_address`, with the command table standing at `table_address`: an IDENTIFY
    /// DEVICE register FIS and one region descriptor for the buffer. The caller places the
    /// list and the table, issues the slot, and reads the buffer with
    /// `DeviceProperties::from_identify_data`.
    pub fn identify_command(&mut self, buffer_address: u64, table_address: u64)
        requires
            buffer_address % 2 == 0,
            old(self).s64a_spec() || table_address >> 32u64 == 0,
            old(self).headers().len() == COMMAND_SLOTS,
        ensures
            final(self).base_spec() == old(self).base_spec(),
            final(self).s64a_spec() == old(self).s64a_spec(),
            final(self).table_fis() == register_fis(ATA_IDENTIFY_DEVICE, 0, 0),
            final(self).table_acmd() == Seq::new(16, |i: int| 0u8),
            final(self).table_prdts().len() == 1,
            final(self).table_prdts()[0] == (Prdt {
                dba: buffer_address as u32,
                dbau: (buffer_address >> 32u64) as u32,
                reserved: 0,
                dw3: (IDENTIFY_SIZE - 1) as u32,
            }),
            final(self).headers() == old(self).headers().update(
                0,
                linked_header(old(self).headers()[0], 1, table_address, old(self).s64a_spec()),
            ),
    {
        let fis = register_fis_for(ATA_IDENTIFY_DEVICE, 0, 0);
        self.prepare_command(fis, buffer_address, IDENTIFY_SIZE, table_address);
    }
}

/// The register block of one port.
#[derive(Debug, Clone, Copy)]
pub struct PortRegisters {
    base: u64,
}

/// Offset of the command and status register in a port's register block.
pub const PORT_CMD_OFFSET: u64 = 0x18;

impl PortRegisters {
    /// The address of the block.
    pub closed spec fn base_spec(&self) -> u64 {
        self.base
    }

    /// The register block of port `port` of `controller`.
    pub fn new(controller: &AhciController, port: usize) -> (r: Self)
        requires
            controller.wf(),
            port < MAX_PORTS,
        ensures
            r.base_spec() == port_base(controller.abar_spec(), port as int),
    {
        Self { base: controller.abar + PORT_REGISTERS_OFFSET + PORT_REGISTERS_SIZE * (port as u64) }
    }

    /// The address of the block.
    pub fn base(&self) -> (r: u64)
        ensures
            r == self.base_spec(),
    {
        self.base
    }

    /// The address of the command and status register.
    pub fn cmd_address(&self) -> (r: u64)
        requires
            self.base_spec() <= u64::MAX - PORT_CMD_OFFSET,
        ensures
            r == self.base_spec() + PORT_CMD_OFFSET,
    {
        self.base + PORT_CMD_OFFSET
    }

    /// The command and status register, holding `value` as read.
    pub fn cmd(&mut self, value: u32) -> (r: PortCmd)
        requires
            old(self).base_spec() <= u64::MAX - PORT_CMD_OFFSET,
        ensures
            r.address_spec() == old(self).base_spec() + PORT_CMD_OFFSET,
            r.value_spec() == value,
            !r.written_spec(),
            *final(self) == *old(self),
    {
        PortCmd::new(self.base + PORT_CMD_OFFSET, value)
    }
}

/// Offset of the global HBA control register from the controller's base address.
pub const GHC_OFFSET: u64 = 0x4;

/// Offset of the ports implemented register.
pub const PI_OFFSET: u64 = 0xC;

/// The generic host control registers of a controller.
#[derive(Debug, Clone, Copy)]
pub struct GenericHostControl {
    base: u64,
}

impl GenericHostControl {
    /// The address of the registers.
    pub closed spec fn base_spec(&self) -> u64 {
        self.base
    }

    /// The address of the registers.
    pub fn base(&self) -> (r: u64)
        ensures
            r == self.base_spec(),
    {
        self.base
    }

    /// The address of the ports implemented register.
    pub fn ports_implemented_address(&self) -> (r: u64)
        requires
            self.base_spec() <= MAX_ABAR,
        ensures
            r == self.base_spec() + PI_OFFSET,
    {
        self.base + PI_OFFSET
    }

    /// The global HBA control register, holding `value` as read.
    pub fn global_hba_control(&mut self, value: u32) -> (r: GlobalHbaControl)
        requires
            old(self).base_spec() <= MAX_ABAR,
        ensures
            r.address_spec() == old(self).base_spec() + GHC_OFFSET,
            r.value_spec() == value,
            !r.written_spec(),
            *final(self) == *old(self),
    {
        GlobalHbaControl::new(self.base + GHC_OFFSET, value)
    }
}

/// Whether `device_type` is a SATA controller with the AHCI interface.
pub open spec fn is_ahci(device_type: Result<DeviceType, (u8, u8, u8)>) -> bool {
    device_type == Ok::<DeviceType, (u8, u8, u8)>(
        DeviceType::MassStorageController(
            MassStorageControllerType::SataController { interface: SataControllerInterface::Ahci },
        ),
    )
}

/// What taking on a PCI device as an AHCI controller gives: an error when it is not an
/// AHCI controller, when its base address is null, or when it supports FIS-based switching.
pub open spec fn controller_check(
    device_type: Result<DeviceType, (u8, u8, u8)>,
    abar: u64,
    capabilities: HostCapabilities,
) -> Result<(), &'static str> {
    if !is_ahci(device_type) {
        Err("incorrect pci device type")
    } else if abar == 0 {
        Err("abar is null")
    } else if bit32(capabilities.0, 16) {
        Err("invalid device configuration: CAP.FBSS == true")
    } else {
        Ok(())
    }
}

/// The checks that come before the controller's registers are touched: the device is an
/// AHCI SATA controller and its base address is not null.
pub open spec fn device_check(device_type: Result<DeviceType, (u8, u8, u8)>, abar: u64) -> Result<(), &'static str> {
    if !is_ahci(device_type) {
        Err("incorrect pci device type")
    } else if abar == 0 {
        Err("abar is null")
    } else {
        Ok(())
    }
}

/// What setting up the ports does to the ports `before`: each port below the count that
/// `capabilities` gives and that `implemented` marks is set up with an empty command table
/// and empty command headers; every other port stays as it was.
pub open spec fn ports_set_up(
    before: Seq<Option<Port>>,
    after: Seq<Option<Port>>,
    capabilities: HostCapabilities,
    implemented: ImplementedPorts,
) -> bool {
    &&& after.len() == before.len()
    &&& forall|i: int| 0 <= i < MAX_PORTS ==> {
        if i < capabilities.np_spec() + 1 && bit32(implemented.0, i as u32) {
            #[trigger] after[i] matches Some(p) && {
                &&& p.table_prdts().len() == 0
                &&& forall|j: int| 0 <= j < COMMAND_SLOTS ==> zero_header(#[trigger] p.headers()[j])
            }
        } else {
            after[i] == before[i]
        }
    }
}

/// An AHCI controller: its base address, its capabilities, and its ports by index.
#[derive(Debug)]
pub struct AhciController {
    abar: u64,
    capabilities: HostCapabilities,
    ports: Vec<Option<Port>>,
}

impl AhciController {
    /// Checks, before any register is read, that the device of type `device_type` with
    /// registers at `abar` can be taken on as an AHCI controller.
    pub fn check_device(device_type: Result<DeviceType, (u8, u8, u8)>, abar: u64) -> (r: Result<(), &'static str>)
        ensures
            match device_check(device_type, abar) {
                Ok(_) => r is Ok,
                Err(e) => r matches Err(m) && m@ == e@,
            },
    {
        match device_type {
            Ok(DeviceType::MassStorageController(MassStorageControllerType::SataController {
                interface: SataControllerInterface::Ahci,
            })) => {},
            _ => {
                return Err("incorrect pci device type");
            },
        }
        if abar == 0 {
            return Err("abar is null");
        }
        Ok(())
    }

    /// The base address of the controller's registers.
    pub closed spec fn abar_spec(&self) -> u64 {
        self.abar
    }

    /// The capabilities read when the controller was taken on.
    pub closed spec fn capabilities_spec(&self) -> HostCapabilities {
        self.capabilities
    }

    /// The ports by index; `None` for one not set up.
    pub closed spec fn ports_spec(&self) -> Seq<Option<Port>> {
        self.ports@
    }

    /// Each set-up port has its registers where the controller's base address puts them,
    /// and knows whether the controller takes 64-bit addresses.
    pub open spec fn wf(&self) -> bool {
        &&& 0 < self.abar_spec() <= MAX_ABAR
        &&& self.ports_spec().len() == MAX_PORTS
        &&& forall|i: int| 0 <= i < MAX_PORTS ==> match #[trigger] self.ports_spec()[i] {
            Some(p) => p.base_spec() == port_base(self.abar_spec(), i) && p.s64a_spec() == bit32(
                self.capabilities_spec().0,
                31,
            ) && p.headers().len() == COMMAND_SLOTS,
            None => true,
        }
    }

    /// Takes on the PCI device of type `device_type` with registers at `abar` and
    /// capabilities `capabilities` as an AHCI controller, with no port set up yet. Before
    /// `init` sets up the ports, the caller switches the controller to AHCI mode where
    /// `capabilities.sam()` is false.
    pub fn try_from(
        device_type: Result<DeviceType, (u8, u8, u8)>,
        abar: u64,
        capabilities: HostCapabilities,
    ) -> (r: Result<Self, &'static str>)
        requires
            abar <= MAX_ABAR,
        ensures
            match controller_check(device_type, abar, capabilities) {
                Ok(_) => r matches Ok(c) && {
                    &&& c.wf()
                    &&& c.abar_spec() == abar
                    &&& c.capabilities_spec() == capabilities
                    &&& forall|i: int| 0 <= i < MAX_PORTS ==> #[trigger] c.ports_spec()[i] is None
                },
                Err(e) => r matches Err(m) && m@ == e@,
            },
    {
        match device_type {
            Ok(DeviceType::MassStorageController(MassStorageControllerType::SataController {
                interface: SataControllerInterface::Ahci,
            })) => {},
            _ => {
                return Err("incorrect pci device type");
            },
        }
        if abar == 0 {
            return Err("abar is null");
        }
        if capabilities.fbss() {
            return Err("invalid device configuration: CAP.FBSS == true");
        }
        let mut ports: Vec<Option<Port>> = Vec::new();
        while ports.len() < MAX_PORTS
            invariant
                ports.len() <= MAX_PORTS,
                forall|i: int| 0 <= i < ports.len() ==> #[trigger] ports@[i] is None,
            decreases MAX_PORTS - ports.len(),
        {
            ports.push(None);
        }
        Ok(Self { abar, capabilities, ports })
    }

    /// Sets up each port below `capabilities.port_count()` that `implemented` marks, with the
    /// 64-bit addressing capability read when the controller was taken on.
    pub fn init(&mut self, capabilities: HostCapabilities, implemented: ImplementedPorts)
        requires
            old(self).wf(),
        ensures
            final(self).wf(),
            final(self).abar_spec() == old(self).abar_spec(),
            final(self).capabilities_spec() == old(self).capabilities_spec(),
            ports_set_up(old(self).ports_spec(), final(self).ports_spec(), capabilities, implemented),
    {
        let port_count: usize = capabilities.port_count() as usize;
        let s64a = self.capabilities.s64a();
        let mut index: usize = 0;
        while index < port_count
            invariant
                port_count == capabilities.np_spec() + 1,
                port_count <= MAX_PORTS,
                0 <= index <= port_count,
                s64a == bit32(self.capabilities_spec().0, 31),
                self.wf(),
                self.abar_spec() == old(self).abar_spec(),
                self.capabilities_spec() == old(self).capabilities_spec(),
                forall|i: int| 0 <= i < MAX_PORTS ==> {
                    if i < index && bit32(implemented.0, i as u32) {
                        #[trigger] self.ports_spec()[i] matches Some(p) && {
                            &&& p.table_prdts().len() == 0
                            &&& forall|j: int| 0 <= j < COMMAND_SLOTS ==> zero_header(#[trigger] p.headers()[j])
                        }
                    } else {
                        self.ports_spec()[i] == old(self).ports_spec()[i]
                    }
                },
            decreases port_count - index,
        {
            if implemented.is_port_implemented(index) {
                let port = Port::init(self.abar, index, s64a);
                self.ports.set(index, Some(port));
            }
            index = index + 1;
        }
    }

    /// The port `port`, when it is set up.
    pub fn get_port(&mut self, port: usize) -> (r: Option<&mut Port>)
        ensures
            final(self).abar_spec() == old(self).abar_spec(),
            final(self).capabilities_spec() == old(self).capabilities_spec(),
            r is Some <==> port < old(self).ports_spec().len() && old(self).ports_spec()[port as int] is Some,
            r is None ==> final(self).ports_spec() == old(self).ports_spec(),
            r matches Some(p) ==> Some(*p) == old(self).ports_spec()[port as int]
                && final(self).ports_spec() == old(self).ports_spec().update(port as int, Some(*final(p))),
    {
        if port >= self.ports.len() {
            return None;
        }
        self.ports[port].as_mut()
    }

    /// The generic host control registers.
    pub fn generic_host_control(&mut self) -> (r: GenericHostControl)
        ensures
            r.base_spec() == old(self).abar_spec(),
            *final(self) == *old(self),
    {
        GenericHostControl { base: self.abar }
    }
}

/// The words that `clb_words` and `fb_words` give for a base address put it back together
/// when read as the controller reads the register pair: the high word above the low one;
/// without 64-bit addressing the low word alone is the address.
pub proof fn lemma_base_words_round_trip(address: u64, s64a: bool)
    requires
        s64a || address >> 32u64 == 0,
    ensures
        ((((address >> 32u64) as u32) as u64) << 32u64) | ((address as u32) as u64) == address,
        !s64a ==> (address as u32) as u64 == address,
{
    assert(((((address >> 32u64) as u32) as u64) << 32u64) | ((address as u32) as u64) == address) by (bit_vector);
    assert(address >> 32u64 == 0 ==> (address as u32) as u64 == address) by (bit_vector);
}

/// A controller taken on by `try_from`, with no port set up, and then set up by `init` has
/// exactly the ports below the port count that the implemented-ports mask marks; `get_port`
/// finds no port from `MAX_PORTS` on.
pub proof fn lemma_ports_after_init(
    fresh: AhciController,
    ready: AhciController,
    capabilities: HostCapabilities,
    implemented: ImplementedPorts,
)
    requires
        fresh.wf(),
        forall|i: int| 0 <= i < MAX_PORTS ==> #[trigger] fresh.ports_spec()[i] is None,
        ports_set_up(fresh.ports_spec(), ready.ports_spec(), capabilities, implemented),
    ensures
        ready.ports_spec().len() == MAX_PORTS,
        forall|i: int| 0 <= i < MAX_PORTS ==> (#[trigger] ready.ports_spec()[i] is Some
            <==> (i < capabilities.np_spec() + 1 && bit32(implemented.0, i as u32))),
{
    assert forall|i: int| 0 <= i < MAX_PORTS implies (#[trigger] ready.ports_spec()[i] is Some
        <==> (i < capabilities.np_spec() + 1 && bit32(implemented.0, i as u32))) by {
        assert(fresh.ports_spec()[i] is None);
    }
}

} // verus!
