//! The virtual memory manager.
use vstd::prelude::*;
use super::memory::PhysicalMemoryManager;

verus! {

/// The virtual memory manager, which owns the physical memory manager.
pub struct VirtualMemoryManager {
    pmm: PhysicalMemoryManager,
}

impl VirtualMemoryManager {
    /// The physical memory manager that the manager owns.
    pub closed spec fn physical(&self) -> PhysicalMemoryManager {
        self.pmm
    }

    /// The manager that takes over `pmm`.
    pub fn init(pmm: PhysicalMemoryManager) -> (r: Self)
        ensures
            r.physical() == pmm,
    {
        Self { pmm }
    }
}

} // verus!
