//! The root system description pointer and the root table it leads to.
use vstd::prelude::*;

use crate::bootloader::cursor::{u32_at, u64_at, Cursor};
use super::error::{AcpiError, RsdpError};
use super::raw::{byte_sum, sums_to_zero, SdtHeader, SDT_HEADER_SIZE};

verus! {

/// The signature that every RSDP starts with: "RSD PTR ".
pub const RSDP_SIGNATURE: [u8; 8] = [0x52, 0x53, 0x44, 0x20, 0x50, 0x54, 0x52, 0x20];

/// Size in bytes of the first revision's RSDP, which its checksum covers.
pub const RSDP_SIZE: usize = 20;

/// Size in bytes of the extended RSDP of revision 2, which its extended checksum covers.
pub const XSDP_SIZE: usize = 36;

/// The first `n` bytes of `s` sum to a multiple of 256.
pub open spec fn checksum_ok(s: Seq<u8>, n: int) -> bool {
    byte_sum(s.subrange(0, n)) % 256 == 0
}

/// The 32-bit table addresses that an RSDT's bytes `t` list after the header.
pub open spec fn rsdt_entries(t: Seq<u8>) -> Seq<u32> {
    Seq::new(((t.len() - SDT_HEADER_SIZE) / 4) as nat, |i: int| u32_at(t, SDT_HEADER_SIZE + 4 * i))
}

/// The 64-bit table addresses that an XSDT's bytes `t` list after the header.
pub open spec fn xsdt_entries(t: Seq<u8>) -> Seq<u64> {
    Seq::new(((t.len() - SDT_HEADER_SIZE) / 8) as nat, |i: int| u64_at(t, SDT_HEADER_SIZE + 8 * i))
}

/// The root system description pointer, by the revision of its structure and its address.
#[derive(Debug, Clone, Copy, PartialEq, Eq, Structural)]
pub enum Rsdp {
    Rsdp(u64),
    Xsdp(u64),
}

/// The root table: the 32-bit table addresses of an RSDT or the 64-bit ones of an XSDT.
#[derive(Debug)]
pub enum Rsdt {
    Rsdt(Vec<u32>),
    Xsdt(Vec<u64>),
}

impl Rsdp {
    /// Checks the RSDP whose bytes, read at `address`, are `bytes`: the address is not null,
    /// the signature is right, the revision is 0 or 2, and the checksum that the revision
    /// calls for holds (over the first 20 bytes for revision 0, over all 36 for revision 2).
    pub fn from_bytes(address: u64, bytes: &[u8]) -> (r: Result<Rsdp, RsdpError>)
        requires
            bytes@.len() >= RSDP_SIZE,
            bytes@[15] == 2 ==> bytes@.len() >= XSDP_SIZE,
        ensures
            address == 0 ==> r matches Err(RsdpError::NullPointer),
            address != 0 && bytes@.subrange(0, 8) != RSDP_SIGNATURE@ ==> (r matches Err(RsdpError::InvalidSignature(s))
                && s@ == bytes@.subrange(0, 8)),
            address != 0 && bytes@.subrange(0, 8) == RSDP_SIGNATURE@ ==> {
                if bytes@[15] == 0 {
                    if checksum_ok(bytes@, RSDP_SIZE as int) {
                        r == Ok::<Rsdp, RsdpError>(Rsdp::Rsdp(address))
                    } else {
                        r matches Err(RsdpError::InvalidChecksum)
                    }
                } else if bytes@[15] == 2 {
                    if checksum_ok(bytes@, XSDP_SIZE as int) {
                        r == Ok::<Rsdp, RsdpError>(Rsdp::Xsdp(address))
                    } else {
                        r matches Err(RsdpError::InvalidChecksum)
                    }
                } else {
                    r matches Err(RsdpError::InvalidRevision(x)) && x == bytes@[15]
                }
            },
    {
        if address == 0 {
            return Err(RsdpError::NullPointer);
        }
        let mut signature: [u8; 8] = [0u8; 8];
        let mut i: usize = 0;
        while i < 8
            invariant
                0 <= i <= 8,
                bytes@.len() >= RSDP_SIZE,
                signature@.len() == 8,
                forall|j: int| 0 <= j < i ==> signature@[j] == bytes@[j],
            decreases 8 - i,
        {
            signature[i] = bytes[i];
            i = i + 1;
        }
        proof {
            assert(signature@ =~= bytes@.subrange(0, 8));
        }
        let mut matches_signature = true;
        let mut k: usize = 0;
        while k < 8
            invariant
                0 <= k <= 8,
                signature@ == bytes@.subrange(0, 8),
                matches_signature == forall|j: int| 0 <= j < k ==> signature@[j] == RSDP_SIGNATURE@[j],
            decreases 8 - k,
        {
            if signature[k] != RSDP_SIGNATURE[k] {
                matches_signature = false;
            }
            k = k + 1;
        }
        if !matches_signature {
            proof {
                assert(bytes@.subrange(0, 8) != RSDP_SIGNATURE@) by {
                    if bytes@.subrange(0, 8) == RSDP_SIGNATURE@ {
                        assert(forall|j: int| 0 <= j < 8 ==> signature@[j] == RSDP_SIGNATURE@[j]);
                    }
                }
            }
            return Err(RsdpError::InvalidSignature(signature));
        }
        proof {
            assert(bytes@.subrange(0, 8) =~= RSDP_SIGNATURE@);
        }
        let revision: u8 = bytes[15];
        if revision == 0 {
            if !sums_to_zero(bytes, RSDP_SIZE) {
                return Err(RsdpError::InvalidChecksum);
            }
            Ok(Rsdp::Rsdp(address))
        } else if revision == 2 {
            if !sums_to_zero(bytes, XSDP_SIZE) {
                return Err(RsdpError::InvalidChecksum);
            }
            Ok(Rsdp::Xsdp(address))
        } else {
            Err(RsdpError::InvalidRevision(revision))
        }
    }

    /// The address of the root table that the RSDP with bytes `bytes` points to: the 32-bit
    /// RSDT address of revision 0, or the 64-bit XSDT address of revision 2.
    pub fn table_address(&self, bytes: &[u8]) -> (r: u64)
        requires
            bytes@.len() >= RSDP_SIZE,
            *self matches Rsdp::Xsdp(_) ==> bytes@.len() >= XSDP_SIZE,
        ensures
            *self matches Rsdp::Rsdp(_) ==> r == u32_at(bytes@, 16),
            *self matches Rsdp::Xsdp(_) ==> r == u64_at(bytes@, 24),
    {
        let mut cur = Cursor::new(bytes);
        match self {
            Rsdp::Rsdp(_) => {
                cur.skip(16);
                let address: u32 = cur.read_u32();
                address as u64
            },
            Rsdp::Xsdp(_) => {
                cur.skip(24);
                cur.read_u64()
            },
        }
    }

    /// The root table, from the RSDP's bytes `bytes` and the root table's bytes `table`
    /// (as long as its header says, and at least the header). The RSDP's checksum is
    /// checked again; an XSDT's own checksum is checked too, an RSDT's is not.
    pub fn get_rsdt(&self, bytes: &[u8], table: &[u8]) -> (r: Result<Rsdt, AcpiError>)
        requires
            bytes@.len() >= RSDP_SIZE,
            *self matches Rsdp::Xsdp(_) ==> bytes@.len() >= XSDP_SIZE,
            table@.len() >= SDT_HEADER_SIZE,
            u32_at(table@, 4) <= table@.len(),
        ensures
            *self matches Rsdp::Rsdp(_) ==> if checksum_ok(bytes@, RSDP_SIZE as int) {
                r matches Ok(Rsdt::Rsdt(v)) && v@ == rsdt_entries(table@)
            } else {
                r matches Err(AcpiError::InvalidChecksum)
            },
            *self matches Rsdp::Xsdp(_) ==> if checksum_ok(bytes@, XSDP_SIZE as int) && checksum_ok(table@, u32_at(table@, 4) as int) {
                r matches Ok(Rsdt::Xsdt(v)) && v@ == xsdt_entries(table@)
            } else {
                r matches Err(AcpiError::InvalidChecksum)
            },
    {
        match self {
            Rsdp::Rsdp(_) => {
                if !sums_to_zero(bytes, RSDP_SIZE) {
                    return Err(AcpiError::InvalidChecksum);
                }
                Ok(Rsdt::Rsdt(read_rsdt_entries(table)))
            },
            Rsdp::Xsdp(_) => {
                if !sums_to_zero(bytes, XSDP_SIZE) {
                    return Err(AcpiError::InvalidChecksum);
                }
                let header = SdtHeader::from_bytes(table);
                if !header.validate(table) {
                    return Err(AcpiError::InvalidChecksum);
                }
                Ok(Rsdt::Xsdt(read_xsdt_entries(table)))
            },
        }
    }
}

/// The 32-bit addresses after the header of RSDT bytes `table`.
fn read_rsdt_entries(table: &[u8]) -> (r: Vec<u32>)
    requires
        table@.len() >= SDT_HEADER_SIZE,
    ensures
        r@ == rsdt_entries(table@),
{
    let count: usize = (table.len() - SDT_HEADER_SIZE) / 4;
    let mut cur = Cursor::new(table);
    cur.skip(SDT_HEADER_SIZE);
    let mut entries: Vec<u32> = Vec::new();
    let mut i: usize = 0;
    while i < count
        invariant
            i <= count,
            count == (table@.len() - SDT_HEADER_SIZE) / 4,
            cur.data() == table@,
            cur.pos() == SDT_HEADER_SIZE + 4 * i,
            entries@.len() == i,
            forall|j: int| 0 <= j < i ==> entries@[j] == u32_at(table@, SDT_HEADER_SIZE + 4 * j),
        decreases count - i,
    {
        let address: u32 = cur.read_u32();
        entries.push(address);
        i = i + 1;
    }
    proof {
        assert(entries@ =~= rsdt_entries(table@));
    }
    entries
}

/// The 64-bit addresses after the header of XSDT bytes `table`.
fn read_xsdt_entries(table: &[u8]) -> (r: Vec<u64>)
    requires
        table@.len() >= SDT_HEADER_SIZE,
    ensures
        r@ == xsdt_entries(table@),
{
    let count: usize = (table.len() - SDT_HEADER_SIZE) / 8;
    let mut cur = Cursor::new(table);
    cur.skip(SDT_HEADER_SIZE);
    let mut entries: Vec<u64> = Vec::new();
    let mut i: usize = 0;
    while i < count
        invariant
            i <= count,
            count == (table@.len() - SDT_HEADER_SIZE) / 8,
            cur.data() == table@,
            cur.pos() == SDT_HEADER_SIZE + 8 * i,
            entries@.len() == i,
            forall|j: int| 0 <= j < i ==> entries@[j] == u64_at(table@, SDT_HEADER_SIZE + 8 * j),
        decreases count - i,
    {
        let address: u64 = cur.read_u64();
        entries.push(address);
        i = i + 1;
    }
    proof {
        assert(entries@ =~= xsdt_entries(table@));
    }
    entries
}

impl Rsdt {
    /// The addresses of the tables that the root table lists, in order.
    pub open spec fn addresses(&self) -> Seq<u64> {
        match self {
            Rsdt::Rsdt(v) => v@.map_values(|a: u32| a as u64),
            Rsdt::Xsdt(v) => v@,
        }
    }

    /// The address of table `index`; `None` past the end.
    pub fn get(&self, index: usize) -> (r: Option<u64>)
        ensures
            index < self.addresses().len() ==> r == Some(self.addresses()[index as int]),
            index >= self.addresses().len() ==> r is None,
            self.addresses().len() <= usize::MAX,
    {
        match self {
            Rsdt::Rsdt(tables) => {
                if index >= tables.len() {
                    return None;
                }
                let address: u32 = tables[index];
                Some(address as u64)
            },
            Rsdt::Xsdt(tables) => {
                if index >= tables.len() {
                    return None;
                }
                let address: u64 = tables[index];
                Some(address)
            },
        }
    }
}

} // verus!
