//! One 512-entry table of the x86-64 paging hierarchy.
use core::marker::PhantomData;
use vstd::prelude::*;

use crate::common::addresses::VirtualAddress;
use super::page_entry::PageEntry;
use vstd::std_specs::iter::IteratorSpec;

verus! {

/// The level of a paging structure: 1 for a page table up to 5 for a PML5.
pub trait IPageMapLevel {
    spec fn level_spec() -> usize;

    proof fn lemma_level_range()
        ensures
            1 <= Self::level_spec() <= 5,
    ;

    fn level() -> (r: usize)
        ensures
            r == Self::level_spec(),
    ;
}

/// Page table (level 1).
pub struct Pt;

/// Page directory (level 2).
pub struct Pd;

/// Page directory pointer table (level 3).
pub struct Pdpt;

/// Page map level 4.
pub struct Pml4;

/// Page map level 5.
pub struct Pml5;

impl IPageMapLevel for Pt {
    open spec fn level_spec() -> usize { 1 }
    proof fn lemma_level_range() {}
    fn level() -> (r: usize) { 1 }
}

impl IPageMapLevel for Pd {
    open spec fn level_spec() -> usize { 2 }
    proof fn lemma_level_range() {}
    fn level() -> (r: usize) { 2 }
}

impl IPageMapLevel for Pdpt {
    open spec fn level_spec() -> usize { 3 }
    proof fn lemma_level_range() {}
    fn level() -> (r: usize) { 3 }
}

impl IPageMapLevel for Pml4 {
    open spec fn level_spec() -> usize { 4 }
    proof fn lemma_level_range() {}
    fn level() -> (r: usize) { 4 }
}

impl IPageMapLevel for Pml5 {
    open spec fn level_spec() -> usize { 5 }
    proof fn lemma_level_range() {}
    fn level() -> (r: usize) { 5 }
}

/// Number of entries in every paging structure.
pub const ENTRY_COUNT: usize = 512;

/// Number of present entries among `s`.
pub open spec fn count_present_in<L: IPageMapLevel>(s: Seq<PageEntry<L>>) -> nat
    decreases s.len(),
{
    if s.len() == 0 {
        0
    } else {
        count_present_in(s.drop_last()) + if s.last().is_present_spec() { 1nat } else { 0nat }
    }
}

/// The index that selects the entry for `vaddr` at level `level`: nine bits of the
/// address, starting at bit `9 * level`.
pub open spec fn index_for(vaddr: u64, level: usize) -> u64 {
    (vaddr >> (9 * level) as u64) & 0x1FF
}

/// A paging structure of level `L`: 512 entries.
pub struct PageMapLevel<L: IPageMapLevel> {
    entries: Vec<PageEntry<L>>,
    _marker: PhantomData<L>,
}

impl<L: IPageMapLevel> PageMapLevel<L> {
    /// The entries of the table.
    pub closed spec fn entries_spec(&self) -> Seq<PageEntry<L>> {
        self.entries@
    }

    /// The table holds exactly 512 entries.
    pub open spec fn wf(&self) -> bool {
        self.entries_spec().len() == ENTRY_COUNT
    }

    /// A table whose 512 entries are all empty.
    pub fn empty() -> (r: Self)
        ensures
            r.wf(),
            forall|i: int| 0 <= i < ENTRY_COUNT ==> (#[trigger] r.entries_spec()[i]).raw() == 0,
    {
        let mut entries: Vec<PageEntry<L>> = Vec::new();
        let mut i: usize = 0;
        while i < ENTRY_COUNT
            invariant
                i <= ENTRY_COUNT,
                entries@.len() == i,
                forall|k: int| 0 <= k < i ==> (#[trigger] entries@[k]).raw() == 0,
            decreases ENTRY_COUNT - i,
        {
            entries.push(PageEntry::empty());
            i += 1;
        }
        Self { entries, _marker: PhantomData }
    }

    /// The number of present entries.
    pub fn count_present(&self) -> (r: usize)
        ensures
            r == count_present_in(self.entries_spec()),
    {
        let mut count: usize = 0;
        let mut i: usize = 0;
        while i < self.entries.len()
            invariant
                i <= self.entries@.len(),
                count == count_present_in(self.entries@.take(i as int)),
                count <= i,
            decreases self.entries@.len() - i,
        {
            proof {
                assert(self.entries@.take(i as int + 1).drop_last() =~= self.entries@.take(i as int));
            }
            if self.entries[i].is_present() {
                count += 1;
            }
            i += 1;
        }
        proof {
            assert(self.entries@.take(i as int) =~= self.entries@);
        }
        count
    }

    /// Whether the entry at `index` exists and is present.
    pub fn is_entry_present(&self, index: usize) -> (r: bool)
        ensures
            r == (index < self.entries_spec().len() && self.entries_spec()[index as int].is_present_spec()),
    {
        if index < self.entries.len() {
            self.entries[index].is_present()
        } else {
            false
        }
    }

    /// The index of the entry of this level that `vaddr` selects.
    pub fn get_index(vaddr: VirtualAddress) -> (r: usize)
        ensures
            r as u64 == index_for(vaddr.0, L::level_spec()),
            r < ENTRY_COUNT,
    {
        proof {
            L::lemma_level_range();
        }
        let shift = (9 * L::level()) as u64;
        let v = vaddr.0;
        assert((v >> shift) & 0x1FF < 512) by (bit_vector);
        ((v >> shift) & 0x1FF) as usize
    }

    /// The entry at `index`, if `index` is within the table.
    pub fn get(&self, index: usize) -> (r: Option<&PageEntry<L>>)
        ensures
            r is Some <==> index < self.entries_spec().len(),
            r matches Some(e) ==> *e == self.entries_spec()[index as int],
    {
        if index < self.entries.len() {
            Some(&self.entries[index])
        } else {
            None
        }
    }

    /// Mutable access to the entry at `index`, if `index` is within the table.
    pub fn get_mut(&mut self, index: usize) -> (r: Option<&mut PageEntry<L>>)
        ensures
            r is Some <==> index < old(self).entries_spec().len(),
            r is None ==> final(self).entries_spec() == old(self).entries_spec(),
            r matches Some(e) ==> *e == old(self).entries_spec()[index as int]
                && final(self).entries_spec() == old(self).entries_spec().update(index as int, *final(e)),
    {
        if index < self.entries.len() {
            Some(&mut self.entries[index])
        } else {
            None
        }
    }

    /// An iterator over the entries, in order.
    pub fn iter(&self) -> (r: core::slice::Iter<'_, PageEntry<L>>)
        ensures
            r.remaining().len() == self.entries_spec().len(),
            forall|i: int| 0 <= i < self.entries_spec().len() ==> *#[trigger] r.remaining()[i] == self.entries_spec()[i],
    {
        self.entries.as_slice().iter()
    }
}

} // verus!
