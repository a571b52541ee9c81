//! The bootloader's view of the x86-64 paging structures.
use core::marker::PhantomData;
use vstd::prelude::*;

use crate::bits::{bit64, test_bit64};

verus! {

/// A physical memory address.
#[derive(Clone, Copy, PartialEq, Eq, Structural, PartialOrd, Ord, Debug)]
pub struct PhysicalAddress(pub u64);

/// A virtual memory address.
#[derive(Clone, Copy, PartialEq, Eq, Structural, PartialOrd, Ord, Debug)]
pub struct VirtualAddress(pub u64);

impl PhysicalAddress {
    /// The null address.
    pub fn null() -> (r: Self)
        ensures
            r.0 == 0,
    {
        Self(0)
    }

    /// Whether this is the null address.
    pub fn is_null(&self) -> (r: bool)
        ensures
            r == (self.0 == 0),
    {
        self.0 == 0
    }
}

/// A paging-structure entry as a raw 64-bit word.
#[derive(Debug)]
pub struct PageEntry(pub u64);

impl PageEntry {
    /// Flag bit `i` of the entry.
    pub open spec fn flag(&self, i: u64) -> bool {
        bit64(self.0, i)
    }

    /// The physical address held by the entry: every bit above the low twelve.
    pub fn address(&self) -> (r: PhysicalAddress)
        ensures
            r.0 == self.0 & !0xFFFu64,
    {
        PhysicalAddress(self.0 & !0xFFF)
    }

    /// The present bit (bit 0).
    pub fn present(&self) -> (r: bool)
        ensures
            r == self.flag(0),
    {
        test_bit64(self.0, 0)
    }

    /// The read/write bit (bit 1).
    pub fn writable(&self) -> (r: bool)
        ensures
            r == self.flag(1),
    {
        test_bit64(self.0, 1)
    }

    /// The user/supervisor bit (bit 2).
    pub fn user_access(&self) -> (r: bool)
        ensures
            r == self.flag(2),
    {
        test_bit64(self.0, 2)
    }

    /// The write-through bit (bit 3).
    pub fn write_through(&self) -> (r: bool)
        ensures
            r == self.flag(3),
    {
        test_bit64(self.0, 3)
    }

    /// The cache-disable bit (bit 4).
    pub fn cache_disabled(&self) -> (r: bool)
        ensures
            r == self.flag(4),
    {
        test_bit64(self.0, 4)
    }

    /// Cacheable: the cache-disable bit (bit 4) is clear.
    pub fn cacheable(&self) -> (r: bool)
        ensures
            r == !self.flag(4),
    {
        !test_bit64(self.0, 4)
    }

    /// The accessed bit (bit 5).
    pub fn accessed(&self) -> (r: bool)
        ensures
            r == self.flag(5),
    {
        test_bit64(self.0, 5)
    }

    /// The dirty bit (bit 6).
    pub fn dirty(&self) -> (r: bool)
        ensures
            r == self.flag(6),
    {
        test_bit64(self.0, 6)
    }

    /// The page-size bit (bit 7).
    pub fn page_size(&self) -> (r: bool)
        ensures
            r == self.flag(7),
    {
        test_bit64(self.0, 7)
    }

    /// The execute-disable bit (bit 63).
    pub fn execute_disabled(&self) -> (r: bool)
        ensures
            r == self.flag(63),
    {
        test_bit64(self.0, 63)
    }
}

/// Number of present entries among `s`.
pub open spec fn count_present_in(s: Seq<PageEntry>) -> nat
    decreases s.len(),
{
    if s.len() == 0 {
        0
    } else {
        count_present_in(s.drop_last()) + if s.last().flag(0) { 1nat } else { 0nat }
    }
}

/// A paging structure of level `N` whose entries lead to values of type `T`.
pub struct PageMapLevel<const N: usize, T> {
    pub entries: Vec<PageEntry>,
    pub _marker: PhantomData<T>,
}

pub type PageMapLevel4 = PageMapLevel<4, PageDirectoryPointer>;
pub type PageDirectoryPointer = PageMapLevel<3, PageDirectory>;
pub type PageDirectory = PageMapLevel<2, PageTable>;
pub type PageTable = PageMapLevel<1, PageEntry>;

impl<const N: usize, T> PageMapLevel<N, T> {
    /// The number of present entries.
    pub fn count_present(&self) -> (r: usize)
        ensures
            r == count_present_in(self.entries@),
    {
        let mut count: usize = 0;
        let mut i: usize = 0;
        while i < self.entries.len()
            invariant
                i <= self.entries@.len(),
                count == count_present_in(self.entries@.take(i as int)),
                count <= i,
            decreases self.entries@.len() - i,
        {
            proof {
                assert(self.entries@.take(i as int + 1).drop_last() =~= self.entries@.take(i as int));
            }
            if self.entries[i].present() {
                count += 1;
            }
            i += 1;
        }
        proof {
            assert(self.entries@.take(i as int) =~= self.entries@);
        }
        count
    }

    /// The entry at `index`.
    pub fn get(&self, index: usize) -> (r: &PageEntry)
        requires
            index < self.entries@.len(),
        ensures
            *r == self.entries@[index as int],
    {
        &self.entries[index]
    }

    /// Mutable access to the entry at `index`.
    pub fn get_mut(&mut self, index: usize) -> (r: &mut PageEntry)
        requires
            index < old(self).entries@.len(),
        ensures
            *r == old(self).entries@[index as int],
            final(self).entries@ == old(self).entries@.update(index as int, *final(r)),
            final(self)._marker == old(self)._marker,
    {
        &mut self.entries[index]
    }
}

/// A page map level 4 table.
#[derive(Debug)]
pub struct Pml4 {
    pub entries: Vec<PageEntry>,
}

/// The value of the CR3 register.
#[derive(Clone, Copy)]
pub struct Cr3Value(pub u64);

impl Cr3Value {
    /// The physical address of the PML4: every bit above the low twelve.
    pub fn pml4_address(&self) -> (r: PhysicalAddress)
        ensures
            r.0 == self.0 & !0xFFFu64,
    {
        PhysicalAddress(self.0 & !0xFFF)
    }
}

} // verus!
