//! Physical and virtual addresses.
use vstd::prelude::*;

verus! {

/// A physical memory address.
#[derive(Clone, Copy, PartialEq, Eq, Structural, PartialOrd, Ord, Debug)]
pub struct PhysicalAddress(pub u64);

/// A virtual memory address.
#[derive(Clone, Copy, PartialEq, Eq, Structural, PartialOrd, Ord, Debug)]
pub struct VirtualAddress(pub u64);

pub type PAddr = PhysicalAddress;
pub type VAddr = VirtualAddress;
pub type PhysAddr = PhysicalAddress;
pub type VirtAddr = VirtualAddress;

impl PhysicalAddress {
    /// The null address.
    pub fn null() -> (r: Self)
        ensures
            r.0 == 0,
    {
        Self(0)
    }

    /// Whether this is the null address.
    pub fn is_null(&self) -> (r: bool)
        ensures
            r == (self.0 == 0),
    {
        self.0 == 0
    }

    /// Whether the address is a multiple of `align`, a power of two.
    pub fn is_aligned_to(&self, align: u64) -> (r: bool)
        requires
            align > 0,
        ensures
            r == (self.0 % align == 0),
    {
        self.0 % align == 0
    }
}

impl VirtualAddress {
    /// The null address.
    pub fn null() -> (r: Self)
        ensures
            r.0 == 0,
    {
        Self(0)
    }

    /// Whether this is the null address.
    pub fn is_null(&self) -> (r: bool)
        ensures
            r == (self.0 == 0),
    {
        self.0 == 0
    }

    /// Whether the address is a multiple of `align`, a power of two.
    pub fn is_aligned_to(&self, align: u64) -> (r: bool)
        requires
            align > 0,
        ensures
            r == (self.0 % align == 0),
    {
        self.0 % align == 0
    }
}

} // verus!
