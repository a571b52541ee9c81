//! Decoding of the PCI class, subclass and programming-interface bytes.
use vstd::prelude::*;

use super::sub_class;

verus! {

/// The kind of a PCI device, as its class code, subclass and programming interface name it.
#[derive(Debug, Clone, Copy, PartialEq, Eq, Structural)]
pub enum DeviceType {
    Unclassified { vga_compatible: bool },
    MassStorageController(MassStorageControllerType),
    NetworkController(NetworkControllerType),
    DisplayController(DisplayControllerType),
    MultimediaController(MultimediaControllerType),
    MemoryController(MemoryControllerType),
    Bridge(BridgeType),
    SimpleCommunicationController,
    BaseSystemPeripheral,
    InputDeviceController,
    DockingStation,
    Processor,
    SerialBusController,
    WirelessController,
    IntelligentController,
    SatelliteCommunicationController,
    EncryptionController,
    SignalProcessingController,
    ProcessingAccelerator,
    NonEssentialInstrumentation,
    CoProcessor,
    UnassignedClass,
}

/// PCI class codes.
pub struct ClassCode;

impl ClassCode {
    pub const UNCLASSIFIED: u8 = 0x0;
    pub const MASS_STORAGE_CONTROLLER: u8 = 0x1;
    pub const NETWORK_CONTROLLER: u8 = 0x2;
    pub const DISPLAY_CONTROLLER: u8 = 0x3;
    pub const MULTIMEDIA_CONTROLLER: u8 = 0x4;
    pub const MEMORY_CONTROLLER: u8 = 0x5;
    pub const BRIDGE: u8 = 0x6;
    pub const SIMPLE_COMMUNICATION_CONTROLLER: u8 = 0x7;
    pub const BASE_SYSTEM_PERIPHERAL: u8 = 0x8;
    pub const INPUT_DEVICE_CONTROLLER: u8 = 0x9;
    pub const DOCKING_STATION: u8 = 0xA;
    pub const PROCESSOR: u8 = 0xB;
    pub const SERIAL_BUS_CONTROLLER: u8 = 0xC;
    pub const WIRELESS_CONTROLLER: u8 = 0xD;
    pub const INTELLIGENT_CONTROLLER: u8 = 0xE;
    pub const SATELLITE_COMMUNICATION_CONTROLLER: u8 = 0xF;
    pub const ENCRYPTION_CONTROLLER: u8 = 0x10;
    pub const SIGNAL_PROCESSING_CONTROLLER: u8 = 0x11;
    pub const PROCESSING_ACCELERATOR: u8 = 0x12;
    pub const NON_ESSENTIAL_INSTRUMENTATION: u8 = 0x13;
    pub const CO_PROCESSOR: u8 = 0x40;
    pub const UNASSIGNED_CLASS: u8 = 0xFF;
}

#[allow(inconsistent_fields)]
#[derive(Debug, Clone, Copy, PartialEq, Eq, Structural)]
pub enum MassStorageControllerType {
    ScsiBusController,
    IdeController {
        supports_isa_mode: bool,
        supports_pci_mode: bool,
        supports_bus_mastering: bool,
        mode: IdeControllerMode,
    },
    FloppyDiskController,
    IpiBusController,
    RaidController,
    AtaController { dma_mode: AtaControllerDmaMode },
    SataController { interface: SataControllerInterface },
    SasController { interface: SasControllerInterface },
    NvmController { interface: NvmControllerInterface },
    Other,
}

#[derive(Debug, Clone, Copy, PartialEq, Eq, Structural)]
pub enum IdeControllerMode {
    IsaCompatibilityMode,
    PciNativeMode,
}

#[derive(Debug, Clone, Copy, PartialEq, Eq, Structural)]
pub enum AtaControllerDmaMode {
    SingleDma,
    ChainedDma,
}

#[derive(Debug, Clone, Copy, PartialEq, Eq, Structural)]
pub enum SataControllerInterface {
    VendorSpecific,
    Ahci,
    SerialStorageBus,
}

#[derive(Debug, Clone, Copy, PartialEq, Eq, Structural)]
pub enum SasControllerInterface {
    Sas,
    SerialStorageBus,
}

#[derive(Debug, Clone, Copy, PartialEq, Eq, Structural)]
pub enum NvmControllerInterface {
    Nvmhci,
    Nvme,
}

#[derive(Debug, Clone, Copy, PartialEq, Eq, Structural)]
pub enum NetworkControllerType {
    EthernetController,
    TokenRingController,
    FddiController,
    AtmController,
    IsdnController,
    WorldFipController,
    Picmg214MultiComputingController,
    InfinibandController,
    FabricController,
    Other,
}

#[derive(Debug, Clone, Copy, PartialEq, Eq, Structural)]
pub enum DisplayControllerType {
    VgaCompatibleController(VgaCompatibleControllerType),
    XgaController,
    Controller3D,
    Other,
}

#[derive(Debug, Clone, Copy, PartialEq, Eq, Structural)]
pub enum VgaCompatibleControllerType {
    VgaController,
    Controller8514Compatible,
}

#[derive(Debug, Clone, Copy, PartialEq, Eq, Structural)]
pub enum MultimediaControllerType {
    MultimediaVideoController,
    MultimediaAudioController,
    ComputerTelephonyDevice,
    AudioDevice,
    Other,
}

#[derive(Debug, Clone, Copy, PartialEq, Eq, Structural)]
pub enum MemoryControllerType {
    RamController,
    FlashController,
    Other,
}

#[derive(Debug, Clone, Copy, PartialEq, Eq, Structural)]
pub enum BridgeType {
    HostBridge,
    IsaBridge,
    EisaBridge,
    McaBridge,
    PciToPciBridge { decode_mode: PciBridgeDecodeMode },
    PcmciaBridge,
    NuBusBridge,
    CardBusBridge,
    RaceWayBridge { mode: RaceWayBridgeMode },
    SemiTransparentPciToPciBridge { cpu_facing_bus: CpuFacingBus },
    InfinibandToPciHostBridge,
    Other,
}

#[derive(Debug, Clone, Copy, PartialEq, Eq, Structural)]
pub enum PciBridgeDecodeMode {
    NormalDecode,
    SubtractiveDecode,
}

#[derive(Debug, Clone, Copy, PartialEq, Eq, Structural)]
pub enum RaceWayBridgeMode {
    Transparent,
    Endpoint,
}

#[derive(Debug, Clone, Copy, PartialEq, Eq, Structural)]
pub enum CpuFacingBus {
    Primary,
    Secondary,
}

/// The IDE capabilities that an IDE controller's programming interface byte names:
/// (ISA compatibility mode, PCI native mode, bus mastering, current mode).
pub open spec fn ide_interface(prog_if: u8) -> Option<(bool, bool, bool, IdeControllerMode)> {
    if prog_if == 0x0 {
        Some((true, false, false, IdeControllerMode::IsaCompatibilityMode))
    } else if prog_if == 0x5 {
        Some((false, true, false, IdeControllerMode::PciNativeMode))
    } else if prog_if == 0xA {
        Some((true, true, false, IdeControllerMode::IsaCompatibilityMode))
    } else if prog_if == 0xF {
        Some((true, true, false, IdeControllerMode::PciNativeMode))
    } else if prog_if == 0x80 {
        Some((true, false, true, IdeControllerMode::IsaCompatibilityMode))
    } else if prog_if == 0x85 {
        Some((false, true, true, IdeControllerMode::PciNativeMode))
    } else if prog_if == 0x8A {
        Some((true, true, true, IdeControllerMode::IsaCompatibilityMode))
    } else if prog_if == 0x8F {
        Some((true, true, true, IdeControllerMode::PciNativeMode))
    } else {
        None
    }
}

impl MassStorageControllerType {
    /// The subclass and programming interface bytes that name this controller type.
    pub open spec fn encodes(self, subclass: u8, prog_if: u8) -> bool {
        match self {
            MassStorageControllerType::ScsiBusController => subclass == 0x0,
            MassStorageControllerType::IdeController {
                supports_isa_mode,
                supports_pci_mode,
                supports_bus_mastering,
                mode,
            } => subclass == 0x1 && ide_interface(prog_if) == Some(
                (supports_isa_mode, supports_pci_mode, supports_bus_mastering, mode),
            ),
            MassStorageControllerType::FloppyDiskController => subclass == 0x2,
            MassStorageControllerType::IpiBusController => subclass == 0x3,
            MassStorageControllerType::RaidController => subclass == 0x4,
            MassStorageControllerType::AtaController { dma_mode } => subclass == 0x5 && prog_if
                == match dma_mode {
                AtaControllerDmaMode::SingleDma => 0x20u8,
                AtaControllerDmaMode::ChainedDma => 0x30u8,
            },
            MassStorageControllerType::SataController { interface } => subclass == 0x6 && prog_if
                == match interface {
                SataControllerInterface::VendorSpecific => 0x0u8,
                SataControllerInterface::Ahci => 0x1u8,
                SataControllerInterface::SerialStorageBus => 0x2u8,
            },
            MassStorageControllerType::SasController { interface } => subclass == 0x7 && prog_if
                == match interface {
                SasControllerInterface::Sas => 0x0u8,
                SasControllerInterface::SerialStorageBus => 0x1u8,
            },
            MassStorageControllerType::NvmController { interface } => subclass == 0x8 && prog_if
                == match interface {
                NvmControllerInterface::Nvmhci => 0x1u8,
                NvmControllerInterface::Nvme => 0x2u8,
            },
            MassStorageControllerType::Other => subclass == 0x80,
        }
    }
}

impl NetworkControllerType {
    /// The subclass byte of this controller type.
    pub open spec fn subclass(self) -> u8 {
        match self {
            NetworkControllerType::EthernetController => 0x0,
            NetworkControllerType::TokenRingController => 0x1,
            NetworkControllerType::FddiController => 0x2,
            NetworkControllerType::AtmController => 0x3,
            NetworkControllerType::IsdnController => 0x4,
            NetworkControllerType::WorldFipController => 0x5,
            NetworkControllerType::Picmg214MultiComputingController => 0x6,
            NetworkControllerType::InfinibandController => 0x7,
            NetworkControllerType::FabricController => 0x8,
            NetworkControllerType::Other => 0x80,
        }
    }
}

impl DisplayControllerType {
    /// The subclass and programming interface bytes that name this controller type.
    pub open spec fn encodes(self, subclass: u8, prog_if: u8) -> bool {
        match self {
            DisplayControllerType::VgaCompatibleController(ty) => subclass == 0x0 && prog_if
                == match ty {
                VgaCompatibleControllerType::VgaController => 0x0u8,
                VgaCompatibleControllerType::Controller8514Compatible => 0x1u8,
            },
            DisplayControllerType::XgaController => subclass == 0x1,
            DisplayControllerType::Controller3D => subclass == 0x2,
            DisplayControllerType::Other => subclass == 0x80,
        }
    }
}

impl MultimediaControllerType {
    /// The subclass byte of this controller type.
    pub open spec fn subclass(self) -> u8 {
        match self {
            MultimediaControllerType::MultimediaVideoController => 0x0,
            MultimediaControllerType::MultimediaAudioController => 0x1,
            MultimediaControllerType::ComputerTelephonyDevice => 0x2,
            MultimediaControllerType::AudioDevice => 0x3,
            MultimediaControllerType::Other => 0x80,
        }
    }
}

impl MemoryControllerType {
    /// The subclass byte of this controller type.
    pub open spec fn subclass(self) -> u8 {
        match self {
            MemoryControllerType::RamController => 0x0,
            MemoryControllerType::FlashController => 0x1,
            MemoryControllerType::Other => 0x80,
        }
    }
}

impl BridgeType {
    /// The subclass and programming interface bytes that name this bridge type.
    pub open spec fn encodes(self, subclass: u8, prog_if: u8) -> bool {
        match self {
            BridgeType::HostBridge => subclass == 0x0,
            BridgeType::IsaBridge => subclass == 0x1,
            BridgeType::EisaBridge => subclass == 0x2,
            BridgeType::McaBridge => subclass == 0x3,
            BridgeType::PciToPciBridge { decode_mode } => subclass == 0x4 && prog_if
                == match decode_mode {
                PciBridgeDecodeMode::NormalDecode => 0x0u8,
                PciBridgeDecodeMode::SubtractiveDecode => 0x1u8,
            },
            BridgeType::PcmciaBridge => subclass == 0x5,
            BridgeType::NuBusBridge => subclass == 0x6,
            BridgeType::CardBusBridge => subclass == 0x7,
            BridgeType::RaceWayBridge { mode } => subclass == 0x8 && prog_if == match mode {
                RaceWayBridgeMode::Transparent => 0x0u8,
                RaceWayBridgeMode::Endpoint => 0x1u8,
            },
            BridgeType::SemiTransparentPciToPciBridge { cpu_facing_bus } => subclass == 0x9
                && prog_if == match cpu_facing_bus {
                CpuFacingBus::Primary => 0x40u8,
                CpuFacingBus::Secondary => 0x80u8,
            },
            BridgeType::InfinibandToPciHostBridge => subclass == 0x0A,
            BridgeType::Other => subclass == 0x80,
        }
    }
}

impl DeviceType {
    /// The class code of this device type.
    pub open spec fn class_code(self) -> u8 {
        match self {
            DeviceType::Unclassified { .. } => 0x0,
            DeviceType::MassStorageController(_) => 0x1,
            DeviceType::NetworkController(_) => 0x2,
            DeviceType::DisplayController(_) => 0x3,
            DeviceType::MultimediaController(_) => 0x4,
            DeviceType::MemoryController(_) => 0x5,
            DeviceType::Bridge(_) => 0x6,
            DeviceType::SimpleCommunicationController => 0x7,
            DeviceType::BaseSystemPeripheral => 0x8,
            DeviceType::InputDeviceController => 0x9,
            DeviceType::DockingStation => 0xA,
            DeviceType::Processor => 0xB,
            DeviceType::SerialBusController => 0xC,
            DeviceType::WirelessController => 0xD,
            DeviceType::IntelligentController => 0xE,
            DeviceType::SatelliteCommunicationController => 0xF,
            DeviceType::EncryptionController => 0x10,
            DeviceType::SignalProcessingController => 0x11,
            DeviceType::ProcessingAccelerator => 0x12,
            DeviceType::NonEssentialInstrumentation => 0x13,
            DeviceType::CoProcessor => 0x40,
            DeviceType::UnassignedClass => 0xFF,
        }
    }

    /// The class, subclass and programming-interface bytes name this device type.
    /// Classes without subclasses here accept any subclass and interface byte.
    pub open spec fn encodes(self, class_code: u8, subclass_code: u8, prog_if: u8) -> bool {
        &&& class_code == self.class_code()
        &&& match self {
            DeviceType::Unclassified { vga_compatible } => subclass_code == if vga_compatible {
                0x1u8
            } else {
                0x0u8
            },
            DeviceType::MassStorageController(t) => t.encodes(subclass_code, prog_if),
            DeviceType::NetworkController(t) => subclass_code == t.subclass(),
            DeviceType::DisplayController(t) => t.encodes(subclass_code, prog_if),
            DeviceType::MultimediaController(t) => subclass_code == t.subclass(),
            DeviceType::MemoryController(t) => subclass_code == t.subclass(),
            DeviceType::Bridge(t) => t.encodes(subclass_code, prog_if),
            _ => true,
        }
    }

    /// Decodes the class, subclass and programming-interface bytes of a PCI device.
    /// Returns the triple itself as the error when no device type has these bytes.
    pub fn try_from(class_code: u8, subclass_code: u8, prog_if: u8) -> (r: Result<Self, (u8, u8, u8)>)
        ensures
            r matches Ok(t) ==> t.encodes(class_code, subclass_code, prog_if),
            r is Err ==> r == Err::<Self, (u8, u8, u8)>((class_code, subclass_code, prog_if))
                && forall|t: DeviceType| !t.encodes(class_code, subclass_code, prog_if),
    {
        let err = Err((class_code, subclass_code, prog_if));
        match class_code {
            v if v == ClassCode::UNCLASSIFIED => match subclass_code {
                v if v == sub_class::Unclassified::NON_VGA_COMPATIBLE_UNCLASSIFIED_DEVICE => Ok(
                    Self::Unclassified { vga_compatible: false },
                ),
                v if v == sub_class::Unclassified::VGA_COMPATIBLE_UNCLASSIFIED_DEVICE => Ok(
                    Self::Unclassified { vga_compatible: true },
                ),
                _ => err,
            },
            v if v == ClassCode::MASS_STORAGE_CONTROLLER => match subclass_code {
                v if v == sub_class::MassStorageController::SCSI_BUS_CONTROLLER => Ok(
                    Self::MassStorageController(MassStorageControllerType::ScsiBusController),
                ),
                v if v == sub_class::MassStorageController::IDE_CONTROLLER => {
                    let ide = match prog_if {
                        0x0 => Some((true, false, false, IdeControllerMode::IsaCompatibilityMode)),
                        0x5 => Some((false, true, false, IdeControllerMode::PciNativeMode)),
                        0xA => Some((true, true, false, IdeControllerMode::IsaCompatibilityMode)),
                        0xF => Some((true, true, false, IdeControllerMode::PciNativeMode)),
                        0x80 => Some((true, false, true, IdeControllerMode::IsaCompatibilityMode)),
                        0x85 => Some((false, true, true, IdeControllerMode::PciNativeMode)),
                        0x8A => Some((true, true, true, IdeControllerMode::IsaCompatibilityMode)),
                        0x8F => Some((true, true, true, IdeControllerMode::PciNativeMode)),
                        _ => None,
                    };
                    if let Some((supports_isa_mode, supports_pci_mode, supports_bus_mastering, mode)) = ide {
                        Ok(Self::MassStorageController(MassStorageControllerType::IdeController {
                            supports_isa_mode,
                            supports_pci_mode,
                            supports_bus_mastering,
                            mode,
                        }))
                    } else {
                        err
                    }
                },
                v if v == sub_class::MassStorageController::FLOPPY_DISK_CONTROLLER => Ok(
                    Self::MassStorageController(MassStorageControllerType::FloppyDiskController),
                ),
                v if v == sub_class::MassStorageController::IPI_BUS_CONTROLLER => Ok(
                    Self::MassStorageController(MassStorageControllerType::IpiBusController),
                ),
                v if v == sub_class::MassStorageController::RAID_CONTROLLER => Ok(
                    Self::MassStorageController(MassStorageControllerType::RaidController),
                ),
                v if v == sub_class::MassStorageController::ATA_CONTROLLER => match prog_if {
                    0x20 => Ok(Self::MassStorageController(MassStorageControllerType::AtaController {
                        dma_mode: AtaControllerDmaMode::SingleDma,
                    })),
                    0x30 => Ok(Self::MassStorageController(MassStorageControllerType::AtaController {
                        dma_mode: AtaControllerDmaMode::ChainedDma,
                    })),
                    _ => err,
                },
                v if v == sub_class::MassStorageController::SERIAL_ATA_CONTROLLER => {
                    let interface = match prog_if {
                        0x0 => Some(SataControllerInterface::VendorSpecific),
                        0x1 => Some(SataControllerInterface::Ahci),
                        0x2 => Some(SataControllerInterface::SerialStorageBus),
                        _ => None,
                    };
                    match interface {
                        Some(interface) => Ok(Self::MassStorageController(
                            MassStorageControllerType::SataController { interface },
                        )),
                        None => err,
                    }
                },
                v if v == sub_class::MassStorageController::SERIAL_ATTACHED_SCSI_CONTROLLER => {
                    let interface = match prog_if {
                        0x0 => Some(SasControllerInterface::Sas),
                        0x1 => Some(SasControllerInterface::SerialStorageBus),
                        _ => None,
                    };
                    match interface {
                        Some(interface) => Ok(Self::MassStorageController(
                            MassStorageControllerType::SasController { interface },
                        )),
                        None => err,
                    }
                },
                v if v == sub_class::MassStorageController::NON_VOLATILE_MEMORY_CONTROLLER => {
                    let interface = match prog_if {
                        0x1 => Some(NvmControllerInterface::Nvmhci),
                        0x2 => Some(NvmControllerInterface::Nvme),
                        _ => None,
                    };
                    match interface {
                        Some(interface) => Ok(Self::MassStorageController(
                            MassStorageControllerType::NvmController { interface },
                        )),
                        None => err,
                    }
                },
                v if v == sub_class::MassStorageController::OTHER => Ok(
                    Self::MassStorageController(MassStorageControllerType::Other),
                ),
                _ => err,
            },
            v if v == ClassCode::NETWORK_CONTROLLER => {
                let ty = match subclass_code {
                    v if v == sub_class::NetworkController::ETHERNET_CONTROLLER => Some(NetworkControllerType::EthernetController),
                    v if v == sub_class::NetworkController::TOKEN_RING_CONTROLLER => Some(NetworkControllerType::TokenRingController),
                    v if v == sub_class::NetworkController::FDDI_CONTROLLER => Some(NetworkControllerType::FddiController),
                    v if v == sub_class::NetworkController::ATM_CONTROLLER => Some(NetworkControllerType::AtmController),
                    v if v == sub_class::NetworkController::ISDN_CONTROLLER => Some(NetworkControllerType::IsdnController),
                    v if v == sub_class::NetworkController::WORLD_FIP_CONTROLLER => Some(NetworkControllerType::WorldFipController),
                    v if v == sub_class::NetworkController::PICMG_214_MULTI_COMPUTING_CONTROLLER => Some(
                        NetworkControllerType::Picmg214MultiComputingController,
                    ),
                    v if v == sub_class::NetworkController::INFINIBAND_CONTROLLER => Some(NetworkControllerType::InfinibandController),
                    v if v == sub_class::NetworkController::FABRIC_CONTROLLER => Some(NetworkControllerType::FabricController),
                    v if v == sub_class::NetworkController::OTHER => Some(NetworkControllerType::Other),
                    _ => None,
                };
                match ty {
                    Some(ty) => Ok(Self::NetworkController(ty)),
                    None => err,
                }
            },
            v if v == ClassCode::DISPLAY_CONTROLLER => match subclass_code {
                v if v == sub_class::DisplayController::VGA_COMPATIBLE_CONTROLLER => match prog_if {
                    0x0 => Ok(Self::DisplayController(
                        DisplayControllerType::VgaCompatibleController(VgaCompatibleControllerType::VgaController),
                    )),
                    0x1 => Ok(Self::DisplayController(
                        DisplayControllerType::VgaCompatibleController(VgaCompatibleControllerType::Controller8514Compatible),
                    )),
                    _ => err,
                },
                v if v == sub_class::DisplayController::XGA_CONTROLLER => Ok(Self::DisplayController(DisplayControllerType::XgaController)),
                v if v == sub_class::DisplayController::CONTROLLER_3D => Ok(Self::DisplayController(DisplayControllerType::Controller3D)),
                v if v == sub_class::DisplayController::OTHER => Ok(Self::DisplayController(DisplayControllerType::Other)),
                _ => err,
            },
            v if v == ClassCode::MULTIMEDIA_CONTROLLER => {
                let ty = match subclass_code {
                    v if v == sub_class::MultimediaController::MULTIMEDIA_VIDEO_CONTROLLER => Some(MultimediaControllerType::MultimediaVideoController),
                    v if v == sub_class::MultimediaController::MULTIMEDIA_AUDIO_CONTROLLER => Some(MultimediaControllerType::MultimediaAudioController),
                    v if v == sub_class::MultimediaController::COMPUTER_TELEPHONY_DEVICE => Some(MultimediaControllerType::ComputerTelephonyDevice),
                    v if v == sub_class::MultimediaController::AUDIO_DEVICE => Some(MultimediaControllerType::AudioDevice),
                    v if v == sub_class::MultimediaController::OTHER => Some(MultimediaControllerType::Other),
                    _ => None,
                };
                match ty {
                    Some(ty) => Ok(Self::MultimediaController(ty)),
                    None => err,
                }
            },
            v if v == ClassCode::MEMORY_CONTROLLER => match subclass_code {
                v if v == sub_class::MemoryController::RAM_CONTROLLER => Ok(Self::MemoryController(MemoryControllerType::RamController)),
                v if v == sub_class::MemoryController::FLASH_CONTROLLER => Ok(Self::MemoryController(MemoryControllerType::FlashController)),
                v if v == sub_class::MemoryController::OTHER => Ok(Self::MemoryController(MemoryControllerType::Other)),
                _ => err,
            },
            v if v == ClassCode::BRIDGE => match subclass_code {
                v if v == sub_class::Bridge::HOST_BRIDGE => Ok(Self::Bridge(BridgeType::HostBridge)),
                v if v == sub_class::Bridge::ISA_BRIDGE => Ok(Self::Bridge(BridgeType::IsaBridge)),
                v if v == sub_class::Bridge::EISA_BRIDGE => Ok(Self::Bridge(BridgeType::EisaBridge)),
                v if v == sub_class::Bridge::MCA_BRIDGE => Ok(Self::Bridge(BridgeType::McaBridge)),
                v if v == sub_class::Bridge::PCI_TO_PCI_BRIDGE => match prog_if {
                    0x0 => Ok(Self::Bridge(BridgeType::PciToPciBridge { decode_mode: PciBridgeDecodeMode::NormalDecode })),
                    0x1 => Ok(Self::Bridge(BridgeType::PciToPciBridge { decode_mode: PciBridgeDecodeMode::SubtractiveDecode })),
                    _ => err,
                },
                v if v == sub_class::Bridge::PCMCIA_BRIDGE => Ok(Self::Bridge(BridgeType::PcmciaBridge)),
                v if v == sub_class::Bridge::NUBUS_BRIDGE => Ok(Self::Bridge(BridgeType::NuBusBridge)),
                v if v == sub_class::Bridge::CARDBUS_BRIDGE => Ok(Self::Bridge(BridgeType::CardBusBridge)),
                v if v == sub_class::Bridge::RACEWAY_BRIDGE => match prog_if {
                    0x0 => Ok(Self::Bridge(BridgeType::RaceWayBridge { mode: RaceWayBridgeMode::Transparent })),
                    0x1 => Ok(Self::Bridge(BridgeType::RaceWayBridge { mode: RaceWayBridgeMode::Endpoint })),
                    _ => err,
                },
                v if v == sub_class::Bridge::SEMI_TRANSPARENT_PCI_TO_PCI_BRIDGE => match prog_if {
                    0x40 => Ok(Self::Bridge(BridgeType::SemiTransparentPciToPciBridge { cpu_facing_bus: CpuFacingBus::Primary })),
                    0x80 => Ok(Self::Bridge(BridgeType::SemiTransparentPciToPciBridge { cpu_facing_bus: CpuFacingBus::Secondary })),
                    _ => err,
                },
                v if v == sub_class::Bridge::INFINIBAND_TO_PCI_HOST_BRIDGE => Ok(Self::Bridge(BridgeType::InfinibandToPciHostBridge)),
                v if v == sub_class::Bridge::OTHER => Ok(Self::Bridge(BridgeType::Other)),
                _ => err,
            },
            v if v == ClassCode::SIMPLE_COMMUNICATION_CONTROLLER => Ok(Self::SimpleCommunicationController),
            v if v == ClassCode::BASE_SYSTEM_PERIPHERAL => Ok(Self::BaseSystemPeripheral),
            v if v == ClassCode::INPUT_DEVICE_CONTROLLER => Ok(Self::InputDeviceController),
            v if v == ClassCode::DOCKING_STATION => Ok(Self::DockingStation),
            v if v == ClassCode::PROCESSOR => Ok(Self::Processor),
            v if v == ClassCode::SERIAL_BUS_CONTROLLER => Ok(Self::SerialBusController),
            v if v == ClassCode::WIRELESS_CONTROLLER => Ok(Self::WirelessController),
            v if v == ClassCode::INTELLIGENT_CONTROLLER => Ok(Self::IntelligentController),
            v if v == ClassCode::SATELLITE_COMMUNICATION_CONTROLLER => Ok(Self::SatelliteCommunicationController),
            v if v == ClassCode::ENCRYPTION_CONTROLLER => Ok(Self::EncryptionController),
            v if v == ClassCode::SIGNAL_PROCESSING_CONTROLLER => Ok(Self::SignalProcessingController),
            v if v == ClassCode::PROCESSING_ACCELERATOR => Ok(Self::ProcessingAccelerator),
            v if v == ClassCode::NON_ESSENTIAL_INSTRUMENTATION => Ok(Self::NonEssentialInstrumentation),
            v if v == ClassCode::CO_PROCESSOR => Ok(Self::CoProcessor),
            v if v == ClassCode::UNASSIGNED_CLASS => Ok(Self::UnassignedClass),
            _ => err,
        }
    }
}

/// No two device types share a class, subclass and programming-interface triple:
/// decoding names at most one device type.
pub proof fn lemma_encoding_unique(a: DeviceType, b: DeviceType, class_code: u8, subclass_code: u8, prog_if: u8)
    requires
        a.encodes(class_code, subclass_code, prog_if),
        b.encodes(class_code, subclass_code, prog_if),
    ensures
        a == b,
{
}

/// The mass-storage rows of the PCI class code table: a mass-storage controller type has
/// class 0x01, its subclass byte, and, where the subclass has several interfaces, exactly
/// the programming-interface byte that the table gives that interface (for NVM controllers:
/// 0x01 NVMHCI, 0x02 NVM Express; for SATA: 0x00 vendor specific, 0x01 AHCI, 0x02 serial
/// storage bus).
pub proof fn lemma_mass_storage_codes(m: MassStorageControllerType, c: u8, s: u8, p: u8)
    requires
        DeviceType::MassStorageController(m).encodes(c, s, p),
    ensures
        c == 0x01,
        match m {
            MassStorageControllerType::ScsiBusController => s == 0x00,
            MassStorageControllerType::IdeController { supports_isa_mode, supports_pci_mode, supports_bus_mastering, mode } => {
                &&& s == 0x01
                &&& (supports_bus_mastering <==> p >= 0x80)
                &&& (p % 0x80 == 0x00 || p % 0x80 == 0x05 || p % 0x80 == 0x0A || p % 0x80 == 0x0F)
                &&& (p % 0x80 == 0x00 ==> supports_isa_mode && !supports_pci_mode && mode == IdeControllerMode::IsaCompatibilityMode)
                &&& (p % 0x80 == 0x05 ==> !supports_isa_mode && supports_pci_mode && mode == IdeControllerMode::PciNativeMode)
                &&& (p % 0x80 == 0x0A ==> supports_isa_mode && supports_pci_mode && mode == IdeControllerMode::IsaCompatibilityMode)
                &&& (p % 0x80 == 0x0F ==> supports_isa_mode && supports_pci_mode && mode == IdeControllerMode::PciNativeMode)
            },
            MassStorageControllerType::FloppyDiskController => s == 0x02,
            MassStorageControllerType::IpiBusController => s == 0x03,
            MassStorageControllerType::RaidController => s == 0x04,
            MassStorageControllerType::AtaController { dma_mode } => s == 0x05
                && (dma_mode == AtaControllerDmaMode::SingleDma <==> p == 0x20)
                && (dma_mode == AtaControllerDmaMode::ChainedDma <==> p == 0x30),
            MassStorageControllerType::SataController { interface } => s == 0x06
                && (interface == SataControllerInterface::VendorSpecific <==> p == 0x00)
                && (interface == SataControllerInterface::Ahci <==> p == 0x01)
                && (interface == SataControllerInterface::SerialStorageBus <==> p == 0x02),
            MassStorageControllerType::SasController { interface } => s == 0x07
                && (interface == SasControllerInterface::Sas <==> p == 0x00)
                && (interface == SasControllerInterface::SerialStorageBus <==> p == 0x01),
            MassStorageControllerType::NvmController { interface } => s == 0x08
                && (interface == NvmControllerInterface::Nvmhci <==> p == 0x01)
                && (interface == NvmControllerInterface::Nvme <==> p == 0x02),
            MassStorageControllerType::Other => s == 0x80,
        },
{
}

/// The PCI class code table: each device type has its class byte, and where this crate
/// tells subclasses apart, the subclass byte (and the programming-interface byte) that the
/// table gives it.
pub proof fn lemma_class_codes(t: DeviceType, c: u8, s: u8, p: u8)
    requires
        t.encodes(c, s, p),
    ensures
        match t {
            DeviceType::Unclassified { vga_compatible } => c == 0x00 && (vga_compatible <==> s == 0x01)
                && (!vga_compatible <==> s == 0x00),
            DeviceType::MassStorageController(_) => c == 0x01,
            DeviceType::NetworkController(n) => c == 0x02 && s == match n {
                NetworkControllerType::EthernetController => 0x00u8,
                NetworkControllerType::TokenRingController => 0x01u8,
                NetworkControllerType::FddiController => 0x02u8,
                NetworkControllerType::AtmController => 0x03u8,
                NetworkControllerType::IsdnController => 0x04u8,
                NetworkControllerType::WorldFipController => 0x05u8,
                NetworkControllerType::Picmg214MultiComputingController => 0x06u8,
                NetworkControllerType::InfinibandController => 0x07u8,
                NetworkControllerType::FabricController => 0x08u8,
                NetworkControllerType::Other => 0x80u8,
            },
            DeviceType::DisplayController(d) => c == 0x03 && match d {
                DisplayControllerType::VgaCompatibleController(v) => s == 0x00
                    && (v == VgaCompatibleControllerType::VgaController <==> p == 0x00)
                    && (v == VgaCompatibleControllerType::Controller8514Compatible <==> p == 0x01),
                DisplayControllerType::XgaController => s == 0x01,
                DisplayControllerType::Controller3D => s == 0x02,
                DisplayControllerType::Other => s == 0x80,
            },
            DeviceType::MultimediaController(m) => c == 0x04 && s == match m {
                MultimediaControllerType::MultimediaVideoController => 0x00u8,
                MultimediaControllerType::MultimediaAudioController => 0x01u8,
                MultimediaControllerType::ComputerTelephonyDevice => 0x02u8,
                MultimediaControllerType::AudioDevice => 0x03u8,
                MultimediaControllerType::Other => 0x80u8,
            },
            DeviceType::MemoryController(m) => c == 0x05 && s == match m {
                MemoryControllerType::RamController => 0x00u8,
                MemoryControllerType::FlashController => 0x01u8,
                MemoryControllerType::Other => 0x80u8,
            },
            DeviceType::Bridge(b) => c == 0x06 && match b {
                BridgeType::HostBridge => s == 0x00,
                BridgeType::IsaBridge => s == 0x01,
                BridgeType::EisaBridge => s == 0x02,
                BridgeType::McaBridge => s == 0x03,
                BridgeType::PciToPciBridge { decode_mode } => s == 0x04
                    && (decode_mode == PciBridgeDecodeMode::NormalDecode <==> p == 0x00)
                    && (decode_mode == PciBridgeDecodeMode::SubtractiveDecode <==> p == 0x01),
                BridgeType::PcmciaBridge => s == 0x05,
                BridgeType::NuBusBridge => s == 0x06,
                BridgeType::CardBusBridge => s == 0x07,
                BridgeType::RaceWayBridge { mode } => s == 0x08
                    && (mode == RaceWayBridgeMode::Transparent <==> p == 0x00)
                    && (mode == RaceWayBridgeMode::Endpoint <==> p == 0x01),
                BridgeType::SemiTransparentPciToPciBridge { cpu_facing_bus } => s == 0x09
                    && (cpu_facing_bus == CpuFacingBus::Primary <==> p == 0x40)
                    && (cpu_facing_bus == CpuFacingBus::Secondary <==> p == 0x80),
                BridgeType::InfinibandToPciHostBridge => s == 0x0A,
                BridgeType::Other => s == 0x80,
            },
            DeviceType::SimpleCommunicationController => c == 0x07,
            DeviceType::BaseSystemPeripheral => c == 0x08,
            DeviceType::InputDeviceController => c == 0x09,
            DeviceType::DockingStation => c == 0x0A,
            DeviceType::Processor => c == 0x0B,
            DeviceType::SerialBusController => c == 0x0C,
            DeviceType::WirelessController => c == 0x0D,
            DeviceType::IntelligentController => c == 0x0E,
            DeviceType::SatelliteCommunicationController => c == 0x0F,
            DeviceType::EncryptionController => c == 0x10,
            DeviceType::SignalProcessingController => c == 0x11,
            DeviceType::ProcessingAccelerator => c == 0x12,
            DeviceType::NonEssentialInstrumentation => c == 0x13,
            DeviceType::CoProcessor => c == 0x40,
            DeviceType::UnassignedClass => c == 0xFF,
        },
{
}

} // verus!
