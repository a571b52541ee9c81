//! A table that the root table lists, by kind.
use vstd::prelude::*;

use super::raw::{SdtHeader, MCFG_ENTRY_SIZE, MCFG_RESERVED_SIZE, MCFG_SIGNATURE, SDT_HEADER_SIZE};
use super::tables::Mcfg;

verus! {

/// A table that the root table lists: an MCFG table, or another one by the address of its
/// header.
#[derive(Debug, Clone, Copy, PartialEq, Eq, Structural)]
pub enum Table {
    Mcfg(Mcfg),
    Other(u64),
}

impl Table {
    /// The table at `address` whose header is `header`: an MCFG table when the signature
    /// says so, with as many entries as fit after the header and the reserved field; any
    /// other table by its address.
    pub fn from(header: &SdtHeader, address: u64) -> (r: Self)
        requires
            header.length >= SDT_HEADER_SIZE,
            header.signature@ == MCFG_SIGNATURE@ ==> header.length >= SDT_HEADER_SIZE + MCFG_RESERVED_SIZE,
        ensures
            header.signature@ == MCFG_SIGNATURE@ ==> r == Table::Mcfg(Mcfg {
                address,
                count: ((header.length - SDT_HEADER_SIZE - MCFG_RESERVED_SIZE) / MCFG_ENTRY_SIZE as int) as usize,
            }),
            header.signature@ != MCFG_SIGNATURE@ ==> r == Table::Other(address),
    {
        let size: usize = header.length as usize - SDT_HEADER_SIZE;
        let mcfg = header.signature[0] == MCFG_SIGNATURE[0] && header.signature[1] == MCFG_SIGNATURE[1]
            && header.signature[2] == MCFG_SIGNATURE[2] && header.signature[3] == MCFG_SIGNATURE[3];
        proof {
            if mcfg {
                assert(header.signature@ =~= MCFG_SIGNATURE@);
            }
        }
        if mcfg {
            let size: usize = size - MCFG_RESERVED_SIZE;
            let count: usize = size / MCFG_ENTRY_SIZE;
            Table::Mcfg(Mcfg { address, count })
        } else {
            Table::Other(address)
        }
    }
}

} // verus!
