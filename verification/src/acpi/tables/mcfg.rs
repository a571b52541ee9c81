//! The PCI express memory-mapped configuration table.
use vstd::prelude::*;

verus! {

/// The MCFG table at an address, with the number of its entries.
#[derive(Debug, Clone, Copy, PartialEq, Eq, Structural)]
pub struct Mcfg {
    pub address: u64,
    pub count: usize,
}

impl Mcfg {
    /// The number of configuration-space entries.
    pub fn len(&self) -> (r: usize)
        ensures
            r == self.count,
    {
        self.count
    }
}

} // verus!
