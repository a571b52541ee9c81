//! x86-64 paging structures.
use vstd::prelude::*;

use crate::bits::lemma_address_word;
use crate::common::addresses::PhysicalAddress;

pub mod page_entry;
pub mod page_map_level;
pub mod page_map;

pub use page_entry::{PageEntry, PageOptions};
pub use page_map::PageMap;
pub use page_map_level::{IPageMapLevel, PageMapLevel, Pt, Pd, Pdpt, Pml4, Pml5};

verus! {

/// A 4 KiB page frame.
#[derive(Debug)]
pub struct Page4K(pub PhysicalAddress);

/// A 2 MiB page frame.
#[derive(Debug)]
pub struct Page2M(pub PhysicalAddress);

/// A 1 GiB page frame.
#[derive(Debug)]
pub struct Page1G(pub PhysicalAddress);

impl Page4K {
    pub const SIZE: usize = 4096;
    pub const ALIGN: usize = 4096;
}

impl Page2M {
    pub const SIZE: usize = 0x20_0000;
    pub const ALIGN: usize = 0x20_0000;
}

impl Page1G {
    pub const SIZE: usize = 0x4000_0000;
    pub const ALIGN: usize = 0x4000_0000;
}

/// Either a next-level table or a page frame.
pub enum TableOrPage<T, P> {
    Table(T),
    Page(P),
}

/// The value of the CR3 register: the physical address of the PML4 in the
/// bits above the low twelve, other flags in the low twelve.
#[derive(Clone, Copy)]
pub struct Cr3Value(pub u64);

impl Cr3Value {
    /// A CR3 value that points at `pml4_address`, with every low flag bit clear.
    pub fn new(pml4_address: PhysicalAddress) -> (r: Self)
        ensures
            r.0 == pml4_address.0 & !0xFFFu64,
    {
        Self(pml4_address.0 & !0xFFF)
    }

    /// The physical address of the PML4.
    pub fn pml4_address(&self) -> (r: PhysicalAddress)
        ensures
            r.0 == self.0 & !0xFFFu64,
    {
        PhysicalAddress(self.0 & !0xFFF)
    }

    /// Points the value at `pml4_address`, keeping the low twelve bits.
    pub fn set_pml4_address(&mut self, pml4_address: PhysicalAddress)
        ensures
            final(self).0 == (old(self).0 & 0xFFF) | (pml4_address.0 & !0xFFFu64),
            final(self).0 & !0xFFFu64 == pml4_address.0 & !0xFFFu64,
            final(self).0 & 0xFFF == old(self).0 & 0xFFF,
    {
        let a = pml4_address.0;
        let x = self.0;
        proof {
            lemma_address_word(x, a, 0);
        }
        assert(((x & 0xFFFu64) | (a & !0xFFFu64)) & 0xFFF == x & 0xFFF) by (bit_vector);
        self.0 = (self.0 & 0xFFF) | (a & !0xFFF);
    }
}

} // verus!
