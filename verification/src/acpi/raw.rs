//! The byte layouts of the ACPI tables.
use vstd::prelude::*;

use crate::bootloader::cursor::{u32_at, Cursor};

verus! {

/// Size in bytes of a system description table header.
pub const SDT_HEADER_SIZE: usize = 36;

/// The signature of the PCI express memory-mapped configuration table.
pub const MCFG_SIGNATURE: [u8; 4] = [0x4D, 0x43, 0x46, 0x47];

/// The header that every system description table starts with.
#[derive(Debug, Copy, Clone)]
pub struct SdtHeader {
    pub signature: [u8; 4],
    pub length: u32,
    pub revision: u8,
    pub checksum: u8,
    pub oem_id: [u8; 6],
    pub oem_table_id: [u8; 8],
    pub oem_revision: u32,
    pub creator_id: u32,
    pub creator_revision: u32,
}

/// The sum of the bytes of `s`.
pub open spec fn byte_sum(s: Seq<u8>) -> nat
    decreases s.len(),
{
    if s.len() == 0 {
        0
    } else {
        (byte_sum(s.drop_last()) + s.last()) as nat
    }
}

impl SdtHeader {
    /// The header at the start of `bytes`, its numbers little-endian.
    pub fn from_bytes(bytes: &[u8]) -> (r: Self)
        requires
            bytes@.len() >= SDT_HEADER_SIZE,
        ensures
            r.signature@ == bytes@.subrange(0, 4),
            r.length == u32_at(bytes@, 4),
            r.revision == bytes@[8],
            r.checksum == bytes@[9],
            r.oem_id@ == bytes@.subrange(10, 16),
            r.oem_table_id@ == bytes@.subrange(16, 24),
            r.oem_revision == u32_at(bytes@, 24),
            r.creator_id == u32_at(bytes@, 28),
            r.creator_revision == u32_at(bytes@, 32),
    {
        let mut cur = Cursor::new(bytes);
        let mut signature: [u8; 4] = [0u8; 4];
        cur.read(&mut signature);
        let length: u32 = cur.read_u32();
        let revision: u8 = cur.read_u8();
        let checksum: u8 = cur.read_u8();
        let mut oem_id: [u8; 6] = [0u8; 6];
        cur.read(&mut oem_id);
        let mut oem_table_id: [u8; 8] = [0u8; 8];
        cur.read(&mut oem_table_id);
        let oem_revision: u32 = cur.read_u32();
        let creator_id: u32 = cur.read_u32();
        let creator_revision: u32 = cur.read_u32();
        Self {
            signature,
            length,
            revision,
            checksum,
            oem_id,
            oem_table_id,
            oem_revision,
            creator_id,
            creator_revision,
        }
    }

    /// Whether the table's `length` bytes, which `table` starts with, sum to a multiple of
    /// 256.
    pub fn validate(&self, table: &[u8]) -> (r: bool)
        requires
            self.length <= table@.len(),
        ensures
            r == (byte_sum(table@.subrange(0, self.length as int)) % 256 == 0),
    {
        sums_to_zero(table, self.length as usize)
    }
}

/// Whether the first `n` bytes of `bytes` sum to a multiple of 256, as ACPI checksums
/// demand.
pub fn sums_to_zero(bytes: &[u8], n: usize) -> (r: bool)
    requires
        n <= bytes@.len(),
    ensures
        r == (byte_sum(bytes@.subrange(0, n as int)) % 256 == 0),
{
    let mut sum: u64 = 0;
    let mut i: usize = 0;
    while i < n
        invariant
            0 <= i <= n,
            n <= bytes@.len(),
            sum == byte_sum(bytes@.subrange(0, i as int)) % 256,
        decreases n - i,
    {
        proof {
            let prefix = bytes@.subrange(0, i as int);
            assert(bytes@.subrange(0, i + 1).drop_last() =~= prefix);
            vstd::arithmetic::div_mod::lemma_add_mod_noop(byte_sum(prefix) as int, bytes@[i as int] as int, 256);
        }
        sum = (sum + bytes[i] as u64) % 256;
        i = i + 1;
    }
    sum == 0
}

/// An entry of the MCFG table: the configuration space of a range of buses.
#[derive(Debug, Clone, Copy)]
pub struct ConfigurationSpaceBaseAddressAllocation {
    pub base_address: u64,
    pub segment_group: u16,
    pub start_bus_number: u8,
    pub end_bus_number: u8,
    pub reserved: u32,
}

/// Size in bytes of an MCFG entry.
pub const MCFG_ENTRY_SIZE: usize = 16;

/// Size in bytes of the reserved field between the MCFG header and its entries.
pub const MCFG_RESERVED_SIZE: usize = 8;

/// The MCFG table: its header and its entries.
#[derive(Debug)]
pub struct Mcfg {
    pub header: SdtHeader,
    pub reserved: u64,
    pub base_address_allocations: Vec<ConfigurationSpaceBaseAddressAllocation>,
}

} // verus!
