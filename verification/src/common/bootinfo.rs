//! What the bootloader hands to the kernel.
use vstd::prelude::*;
use core::ops::Range;
use super::addresses::PhysicalAddress;

verus! {

/// What the bootloader hands to the kernel: the free physical memory, as ranges from a
/// start address up to an end address (not included).
#[derive(Debug)]
pub struct BootInfo {
    pub available_mem: Vec<Range<PhysicalAddress>>,
}

} // verus!
