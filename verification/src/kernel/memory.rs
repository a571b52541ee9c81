//! A physical page allocator: one bitmap per usable memory region.
use core::ops::Range;
use vstd::prelude::*;

use crate::bits::{bit64, test_bit64, lemma_bit64_set, lemma_bit64_clear};
use crate::common::addresses::PhysicalAddress;

verus! {

/// Size of a page.
pub const PAGE_SIZE: u64 = 4096;

/// Bits in one bitmap word.
pub const VALUE_BIT_COUNT: usize = 64;

/// Bitmap words a region gets: one page of them.
pub const META_WORDS: usize = 512;

/// Pages that one region's bitmap tracks: the bits of its bitmap page.
pub const BITMAP_PAGES: usize = 32768;

/// Number of entries of `s` that are `false`.
pub open spec fn count_false(s: Seq<bool>) -> nat
    decreases s.len(),
{
    if s.len() == 0 {
        0
    } else {
        count_false(s.drop_last()) + if s.last() { 0nat } else { 1nat }
    }
}

/// Replacing one entry changes the number of `false` entries by what it replaced.
pub proof fn lemma_count_false_update(s: Seq<bool>, k: int, b: bool)
    requires
        0 <= k < s.len(),
    ensures
        count_false(s.update(k, b)) + (if s[k] { 0nat } else { 1nat })
            == count_false(s) + (if b { 0nat } else { 1nat }),
    decreases s.len(),
{
    let t = s.update(k, b);
    if k == s.len() - 1 {
        assert(t.drop_last() =~= s.drop_last());
    } else {
        assert(t.drop_last() =~= s.drop_last().update(k, b));
        lemma_count_false_update(s.drop_last(), k, b);
    }
}

/// A sequence with a `false` entry has one.
pub proof fn lemma_count_false_witness(s: Seq<bool>)
    requires
        count_false(s) > 0,
    ensures
        exists|i: int| 0 <= i < s.len() && !s[i],
    decreases s.len(),
{
    if s.last() {
        lemma_count_false_witness(s.drop_last());
        let i = choose|i: int| 0 <= i < s.drop_last().len() && !s.drop_last()[i];
        assert(!s[i]);
    } else {
        assert(!s[s.len() - 1]);
    }
}

/// All entries `false`: the count is the length.
pub proof fn lemma_count_false_all(s: Seq<bool>)
    requires
        forall|i: int| 0 <= i < s.len() ==> !s[i],
    ensures
        count_false(s) == s.len(),
    decreases s.len(),
{
    if s.len() > 0 {
        lemma_count_false_all(s.drop_last());
    }
}

/// Bit `i` of a bitmap made of 64-bit words.
pub open spec fn bitmap_bit(meta: Seq<u64>, i: int) -> bool {
    bit64(meta[i / 64], (i % 64) as u64)
}

/// The bookkeeping of one memory region: a bitmap with one bit per page, set while the
/// page is allocated.
#[derive(Debug)]
pub struct RegionHeader {
    meta: Vec<u64>,
    first_page: PhysicalAddress,
    pages: usize,
    next_check: usize,
    pages_free: usize,
}

impl RegionHeader {
    /// Which pages of the region are allocated. Pages past the bitmap's reach count as in
    /// use: the region never hands them out.
    pub closed spec fn used(&self) -> Seq<bool> {
        Seq::new(self.pages as nat, |i: int| if i < BITMAP_PAGES { bitmap_bit(self.meta@, i) } else { true })
    }

    /// The page where the search starts once it has gone `d` pages round the region.
    pub open spec fn scan(&self, d: int) -> int {
        if self.next_check_spec() + d < self.pages_spec() {
            self.next_check_spec() + d
        } else {
            self.next_check_spec() + d - self.pages_spec()
        }
    }

    /// A search for a free page stops at page `i`: it is free, or past the bitmap's reach.
    pub open spec fn stops(&self, i: int) -> bool {
        i >= BITMAP_PAGES || !self.used()[i]
    }

    /// The search for a free page stops after going `d` pages round the region, and not
    /// before.
    pub open spec fn first_stop(&self, d: int) -> bool {
        &&& 0 <= d < self.pages_spec()
        &&& self.stops(self.scan(d))
        &&& forall|e: int| 0 <= e < d ==> !#[trigger] self.stops(self.scan(e))
    }

    /// The search from the current start would run past the bitmap before it found a free
    /// page.
    pub open spec fn search_refused(&self) -> bool {
        exists|d: int| #[trigger] self.first_stop(d) && self.scan(d) >= BITMAP_PAGES
    }

    /// Address of the region's first page.
    pub closed spec fn first_page_spec(&self) -> u64 {
        self.first_page.0
    }

    /// Number of pages in the region.
    pub closed spec fn pages_spec(&self) -> nat {
        self.pages as nat
    }

    /// The count of free pages that the region keeps.
    pub closed spec fn pages_free_spec(&self) -> nat {
        self.pages_free as nat
    }

    /// Where the next search for a free page starts.
    pub closed spec fn next_check_spec(&self) -> nat {
        self.next_check as nat
    }

    /// The address of page `i` of the region.
    pub open spec fn page_address(&self, i: int) -> int {
        self.first_page_spec() + i * PAGE_SIZE
    }

    /// The bitmap covers every page, the pages lie within the address space, the search
    /// start is a page of the region, and the kept count of free pages never exceeds the
    /// pages whose bit is clear.
    pub closed spec fn wf(&self) -> bool {
        &&& 0 < self.pages
        &&& self.meta@.len() == META_WORDS
        &&& self.first_page.0 + self.pages * PAGE_SIZE <= u64::MAX
        &&& self.next_check < self.pages
        &&& self.pages <= BITMAP_PAGES ==> self.pages_free <= count_false(self.used())
    }

    /// A region of `pages` pages from `first_page`, every page free.
    fn new(meta: Vec<u64>, first_page: PhysicalAddress, pages: usize) -> (r: Self)
        requires
            0 < pages,
            meta@.len() == META_WORDS,
            first_page.0 + pages * PAGE_SIZE <= u64::MAX,
            forall|k: int| 0 <= k < meta@.len() ==> meta@[k] == 0,
        ensures
            r.wf(),
            r.first_page_spec() == first_page.0,
            r.pages_spec() == pages,
            r.pages_free_spec() == pages,
            r.next_check_spec() == 0,
            forall|i: int| 0 <= i < pages ==> #[trigger] r.used()[i] == (i >= BITMAP_PAGES),
    {
        let r = Self { meta, first_page, pages, next_check: 0, pages_free: pages };
        proof {
            assert forall|i: int| 0 <= i < pages && i < BITMAP_PAGES implies !#[trigger] r.used()[i] by {
                let w = r.meta@[i / 64];
                let j = (i % 64) as u64;
                assert(w == 0);
                assert(0u64 & (1u64 << j) == 0) by (bit_vector);
            }
            if pages <= BITMAP_PAGES {
                lemma_count_false_all(r.used());
            }
        }
        r
    }

    /// The word and bit that hold page `index`.
    fn indices(index: usize) -> (r: (usize, usize))
        ensures
            r.0 == index / 64,
            r.1 == index % 64,
    {
        let i = index / VALUE_BIT_COUNT;
        let j = index % VALUE_BIT_COUNT;
        (i, j)
    }

    /// Whether page `index` is allocated.
    fn check_bit(&self, index: usize) -> (r: bool)
        requires
            self.wf(),
            index < self.pages_spec(),
            index < BITMAP_PAGES,
        ensures
            r == self.used()[index as int],
    {
        let (i, j) = Self::indices(index);
        let val = self.meta[i];
        test_bit64(val, j as u64)
    }

    /// Marks page `index` allocated.
    fn set_bit(&mut self, index: usize)
        requires
            old(self).wf(),
            index < old(self).pages_spec(),
            index < BITMAP_PAGES,
        ensures
            final(self).used() == old(self).used().update(index as int, true),
            final(self).meta@.len() == old(self).meta@.len(),
            final(self).first_page == old(self).first_page,
            final(self).pages == old(self).pages,
            final(self).next_check == old(self).next_check,
            final(self).pages_free == old(self).pages_free,
    {
        let (i, j) = Self::indices(index);
        let ghost before = self.meta@;
        let word = self.meta[i] | (1u64 << j as u64);
        self.meta.set(i, word);
        proof {
            assert forall|k: int| 0 <= k < self.pages && k < BITMAP_PAGES implies #[trigger] bitmap_bit(self.meta@, k)
                == (k == index || bitmap_bit(before, k)) by {
                if k / 64 == i as int {
                    lemma_bit64_set(before[i as int], j as u64, (k % 64) as u64);
                }
            }
            assert(self.used() =~= old(self).used().update(index as int, true));
        }
    }

    /// Marks page `index` free.
    fn unset_bit(&mut self, index: usize)
        requires
            old(self).wf(),
            index < old(self).pages_spec(),
            index < BITMAP_PAGES,
        ensures
            final(self).used() == old(self).used().update(index as int, false),
            final(self).meta@.len() == old(self).meta@.len(),
            final(self).first_page == old(self).first_page,
            final(self).pages == old(self).pages,
            final(self).next_check == old(self).next_check,
            final(self).pages_free == old(self).pages_free,
    {
        let (i, j) = Self::indices(index);
        let ghost before = self.meta@;
        let word = self.meta[i] & !(1u64 << j as u64);
        self.meta.set(i, word);
        proof {
            assert forall|k: int| 0 <= k < self.pages && k < BITMAP_PAGES implies #[trigger] bitmap_bit(self.meta@, k)
                == (k != index && bitmap_bit(before, k)) by {
                if k / 64 == i as int {
                    lemma_bit64_clear(before[i as int], j as u64, (k % 64) as u64);
                }
            }
            assert(self.used() =~= old(self).used().update(index as int, false));
        }
    }

    /// Searches for a free page from the search start, going round the region, and
    /// allocates the first one it meets; the search start moves past it. Where the search
    /// would run past the bitmap's reach first, nothing changes and `None` comes back.
    /// Requires a kept count of free pages above zero.
    fn alloc_in_region(&mut self) -> (r: Option<PhysicalAddress>)
        requires
            old(self).wf(),
            old(self).pages_free_spec() > 0,
        ensures
            final(self).wf(),
            exists|d: int| #[trigger] old(self).first_stop(d) && {
                let k = old(self).scan(d);
                if k < BITMAP_PAGES {
                    &&& r == Some(PhysicalAddress(old(self).page_address(k) as u64))
                    &&& final(self).used() == old(self).used().update(k, true)
                    &&& final(self).pages_free_spec() == old(self).pages_free_spec() - 1
                    &&& final(self).next_check_spec() == (k + 1) % (old(self).pages_spec() as int)
                    &&& final(self).first_page_spec() == old(self).first_page_spec()
                    &&& final(self).pages_spec() == old(self).pages_spec()
                } else {
                    r is None && *final(self) == *old(self)
                }
            },
    {
        let ghost used = self.used();
        let ghost w: int = if self.pages > BITMAP_PAGES {
            BITMAP_PAGES as int
        } else {
            lemma_count_false_witness(used);
            choose|i: int| 0 <= i < used.len() && !used[i]
        };
        proof {
            if self.pages > BITMAP_PAGES {
                assert(old(self).stops(w));
            } else {
                lemma_count_false_witness(used);
                assert(old(self).stops(w));
            }
        }
        let ghost start = self.next_check as int;
        let ghost dist: int = if w >= start { w - start } else { w + self.pages - start };
        let mut current = self.next_check;
        let ghost mut steps: int = 0;
        loop
            invariant
                self.wf(),
                *self == *old(self),
                self.pages_free > 0,
                0 <= w < self.pages,
                old(self).stops(w),
                0 <= start < self.pages,
                start == old(self).next_check_spec(),
                0 <= dist < self.pages,
                w == if start + dist < self.pages { start + dist } else { start + dist - self.pages },
                0 <= steps <= dist,
                current == old(self).scan(steps),
                forall|e: int| 0 <= e < steps ==> !#[trigger] old(self).stops(old(self).scan(e)),
            decreases dist - steps,
        {
            if current >= BITMAP_PAGES {
                proof {
                    assert(old(self).first_stop(steps));
                }
                return None;
            }
            if !self.check_bit(current) {
                let ghost before = self.used();
                self.set_bit(current);
                self.pages_free = self.pages_free - 1;
                proof {
                    assert(old(self).first_stop(steps));
                    lemma_count_false_update(before, current as int, true);
                    if current + 1 < self.pages {
                        vstd::arithmetic::div_mod::lemma_small_mod((current + 1) as nat, self.pages as nat);
                    } else {
                        vstd::arithmetic::div_mod::lemma_mod_self_0(self.pages as int);
                    }
                    assert(current * PAGE_SIZE <= self.pages * PAGE_SIZE) by (nonlinear_arith)
                        requires
                            current < self.pages;
                }
                self.next_check = (current + 1) % self.pages;
                let page = PhysicalAddress(self.first_page.0 + current as u64 * PAGE_SIZE);
                return Some(page);
            }
            proof {
                assert(!old(self).stops(old(self).scan(steps)));
                assert(steps < dist);
                steps = steps + 1;
            }
            if current + 1 < self.pages {
                current = current + 1;
            } else {
                current = 0;
            }
        }
    }

    /// Whether `page` lies within the region.
    fn contains_page(&self, page: PhysicalAddress) -> (r: bool)
        requires
            self.wf(),
        ensures
            r == (self.first_page_spec() <= page.0 < self.page_address(self.pages_spec() as int)),
    {
        if page.0 < self.first_page.0 {
            return false;
        }
        if page.0 >= self.first_page.0 + self.pages as u64 * PAGE_SIZE {
            return false;
        }
        true
    }

    /// Marks the page that holds `page` free. The kept count of free pages stays as it was.
    pub fn free_page(&mut self, page: PhysicalAddress)
        requires
            old(self).wf(),
            old(self).first_page_spec() <= page.0 < old(self).page_address(old(self).pages_spec() as int),
            (page.0 - old(self).first_page_spec()) / (PAGE_SIZE as int) < BITMAP_PAGES,
        ensures
            final(self).wf(),
            final(self).used() == old(self).used().update((page.0 - old(self).first_page_spec()) / PAGE_SIZE as int, false),
            final(self).pages_free_spec() == old(self).pages_free_spec(),
            final(self).first_page_spec() == old(self).first_page_spec(),
            final(self).pages_spec() == old(self).pages_spec(),
            final(self).next_check_spec() == old(self).next_check_spec(),
    {
        let index = ((page.0 - self.first_page.0) / PAGE_SIZE) as usize;
        proof {
            assert(index < self.pages) by (nonlinear_arith)
                requires
                    index as int == (page.0 - self.first_page.0) / 4096,
                    page.0 - self.first_page.0 < self.pages * 4096,
                    self.first_page.0 <= page.0;
        }
        let ghost before = self.used();
        self.unset_bit(index);
        proof {
            lemma_count_false_update(before, index as int, false);
        }
    }
}


/// Manages the free physical pages of all usable memory regions.
#[derive(Debug)]
pub struct PhysicalMemoryManager {
    regions: Vec<RegionHeader>,
}

/// What allocating from `before` leaves in `after` and returns: the first region whose kept
/// count of free pages is above zero hands out the first free page that its search meets,
/// going round from the search start; it marks the page allocated, counts one free page
/// less and starts the next search after it; every other region stays as it was. `None`,
/// with nothing changed, when no region counts a free page, or when that region's search
/// would run past its bitmap's reach before meeting a free page.
pub open spec fn alloc_outcome(before: PhysicalMemoryManager, after: PhysicalMemoryManager, r: Option<PhysicalAddress>) -> bool {
    let b = before.regions_spec();
    let a = after.regions_spec();
    match r {
        None => a == b && ((forall|i: int| 0 <= i < b.len() ==> #[trigger] b[i].pages_free_spec() == 0)
            || exists|i: int| {
                &&& 0 <= i < b.len()
                &&& #[trigger] b[i].pages_free_spec() > 0
                &&& forall|j: int| 0 <= j < i ==> #[trigger] b[j].pages_free_spec() == 0
                &&& b[i].search_refused()
            }),
        Some(p) => exists|i: int, k: int| {
            &&& 0 <= i < b.len()
            &&& #[trigger] b[i].pages_free_spec() > 0
            &&& forall|j: int| 0 <= j < i ==> #[trigger] b[j].pages_free_spec() == 0
            &&& 0 <= k < b[i].pages_spec()
            &&& !#[trigger] b[i].used()[k]
            &&& p.0 == b[i].page_address(k)
            &&& a.len() == b.len()
            &&& a[i].used() == b[i].used().update(k, true)
            &&& a[i].pages_free_spec() == b[i].pages_free_spec() - 1
            &&& a[i].first_page_spec() == b[i].first_page_spec()
            &&& a[i].pages_spec() == b[i].pages_spec()
            &&& forall|j: int| 0 <= j < b.len() && j != i ==> #[trigger] a[j] == b[j]
            &&& exists|d: int| #[trigger] b[i].first_stop(d) && b[i].scan(d) == k
            &&& a[i].next_check_spec() == (k + 1) % (b[i].pages_spec() as int)
        },
    }
}

/// What freeing `page` in `before` leaves in `after`: the first region that holds the
/// page marks the page of its bitmap that the address falls in free, keeping its count of
/// free pages; every other region stays as it was.
pub open spec fn free_outcome(before: PhysicalMemoryManager, after: PhysicalMemoryManager, page: u64) -> bool {
    let b = before.regions_spec();
    let a = after.regions_spec();
    exists|i: int| {
        &&& 0 <= i < b.len()
        &&& #[trigger] region_holds(b, i, page)
        &&& forall|j: int| 0 <= j < i ==> !#[trigger] region_holds(b, j, page)
        &&& a.len() == b.len()
        &&& a[i].used() == b[i].used().update((page - b[i].first_page_spec()) / PAGE_SIZE as int, false)
        &&& a[i].pages_free_spec() == b[i].pages_free_spec()
        &&& a[i].first_page_spec() == b[i].first_page_spec()
        &&& a[i].pages_spec() == b[i].pages_spec()
        &&& forall|j: int| 0 <= j < b.len() && j != i ==> #[trigger] a[j] == b[j]
    }
}

/// Region `i` of `regions` holds `page`.
pub open spec fn region_holds(regions: Seq<RegionHeader>, i: int, page: u64) -> bool {
    regions[i].first_page_spec() <= page < regions[i].page_address(regions[i].pages_spec() as int)
}

/// The usable part of a memory range and the page count it yields: the first page holds
/// the region's header, the next its bitmap, the rest are managed. `None`: the range is
/// skipped (it starts at null, its length after the header page is not whole pages, or it
/// leaves no page to manage).
pub open spec fn region_for_range(range: Range<PhysicalAddress>) -> Option<(u64, nat)> {
    let start = range.start.0 + PAGE_SIZE;
    let length = range.end.0 - start;
    if range.start.0 == 0 || length % (PAGE_SIZE as int) != 0 || length / (PAGE_SIZE as int) <= 1 {
        None
    } else {
        Some(((start + PAGE_SIZE) as u64, (length / (PAGE_SIZE as int) - 1) as nat))
    }
}

/// The regions made from the first `n` ranges: each range that is not skipped adds a
/// region in front of those before it.
pub open spec fn regions_for(memory: Seq<Range<PhysicalAddress>>, n: nat) -> Seq<(u64, nat)>
    decreases n,
{
    if n == 0 {
        seq![]
    } else {
        let prev = regions_for(memory, (n - 1) as nat);
        match region_for_range(memory[n - 1]) {
            Some(r) => seq![r] + prev,
            None => prev,
        }
    }
}

/// Every range can be split into header, bitmap and pages without overflow, and its page
/// count fits in a `usize`.
pub open spec fn ranges_supported(memory: Seq<Range<PhysicalAddress>>) -> bool {
    forall|i: int| 0 <= i < memory.len() ==> {
        &&& (#[trigger] memory[i]).start.0 + PAGE_SIZE <= u64::MAX
        &&& memory[i].start.0 + PAGE_SIZE <= memory[i].end.0
        &&& (region_for_range(memory[i]) matches Some(r) ==> r.1 <= usize::MAX)
    }
}

impl PhysicalMemoryManager {
    /// The regions, in the order in which they are searched.
    pub closed spec fn regions_spec(&self) -> Seq<RegionHeader> {
        self.regions@
    }

    /// Every region is well formed.
    pub open spec fn wf(&self) -> bool {
        forall|i: int| 0 <= i < self.regions_spec().len() ==> (#[trigger] self.regions_spec()[i]).wf()
    }

    /// No two regions share a page.
    pub open spec fn regions_disjoint(&self) -> bool {
        forall|i: int, j: int| 0 <= i < self.regions_spec().len() && 0 <= j < self.regions_spec().len() && i != j ==>
            #[trigger] self.regions_spec()[i].page_address(self.regions_spec()[i].pages_spec() as int)
                <= self.regions_spec()[j].first_page_spec()
            || #[trigger] self.regions_spec()[j].page_address(self.regions_spec()[j].pages_spec() as int)
                <= self.regions_spec()[i].first_page_spec()
    }

    /// `page` is the address of an allocated page of some region.
    pub open spec fn page_in_use(&self, page: u64) -> bool {
        exists|i: int, k: int| 0 <= i < self.regions_spec().len() && 0 <= k < self.regions_spec()[i].pages_spec()
            && page == self.regions_spec()[i].page_address(k) && #[trigger] self.regions_spec()[i].used()[k]
    }

    /// Sets up one region for each usable range of `memory`; a range is skipped when it
    /// starts at null, when its length after the header page is not whole pages, or when it
    /// leaves no page besides the bitmap page. The last usable range is searched first.
    /// Fails when no range is usable.
    pub fn init(memory: &Vec<Range<PhysicalAddress>>) -> (r: Result<Self, String>)
        requires
            ranges_supported(memory@),
        ensures
            regions_for(memory@, memory@.len() as nat).len() == 0 ==> (r matches Err(m) && m@ == "no valid region in the provided list"@),
            regions_for(memory@, memory@.len() as nat).len() > 0 ==> (r matches Ok(pmm) && {
                let regs = regions_for(memory@, memory@.len() as nat);
                &&& pmm.wf()
                &&& pmm.regions_spec().len() == regs.len()
                &&& forall|i: int| 0 <= i < regs.len() ==> {
                    &&& (#[trigger] pmm.regions_spec()[i]).first_page_spec() == regs[i].0
                    &&& pmm.regions_spec()[i].pages_spec() == regs[i].1
                    &&& pmm.regions_spec()[i].pages_free_spec() == regs[i].1
                    &&& forall|k: int| 0 <= k < regs[i].1 ==> #[trigger] pmm.regions_spec()[i].used()[k] == (k >= BITMAP_PAGES)
                }
            }),
    {
        let mut regions: Vec<RegionHeader> = Vec::new();
        let mut n: usize = 0;
        while n < memory.len()
            invariant
                n <= memory@.len(),
                ranges_supported(memory@),
                regions@.len() == regions_for(memory@, n as nat).len(),
                forall|i: int| 0 <= i < regions@.len() ==> {
                    let regs = regions_for(memory@, n as nat);
                    &&& (#[trigger] regions@[i]).wf()
                    &&& regions@[i].first_page_spec() == regs[i].0
                    &&& regions@[i].pages_spec() == regs[i].1
                    &&& regions@[i].pages_free_spec() == regs[i].1
                    &&& forall|k: int| 0 <= k < regs[i].1 ==> #[trigger] regions@[i].used()[k] == (k >= BITMAP_PAGES)
                },
            decreases memory@.len() - n,
        {
            let range = &memory[n];
            let header = range.start;
            let start = PhysicalAddress(header.0 + 4096);
            let end = range.end;
            let length = end.0 - start.0;
            let ghost prev = regions_for(memory@, n as nat);
            proof {
                assert(regions_for(memory@, (n + 1) as nat) == match region_for_range(memory@[n as int]) {
                    Some(r) => seq![r] + prev,
                    None => prev,
                });
            }
            if header.is_null() || length % PAGE_SIZE != 0 || length / PAGE_SIZE <= 1 {
                n += 1;
                continue;
            }
            let page_count = (length / PAGE_SIZE - 1) as usize;
            let mut meta: Vec<u64> = Vec::new();
            let mut w: usize = 0;
            while w < META_WORDS
                invariant
                    w <= META_WORDS,
                    meta@.len() == w,
                    forall|k: int| 0 <= k < w ==> meta@[k] == 0,
                decreases META_WORDS - w,
            {
                meta.push(0);
                w += 1;
            }
            let first_page = PhysicalAddress(start.0 + PAGE_SIZE);
            let region = RegionHeader::new(meta, first_page, page_count);
            let ghost old_regions = regions@;
            regions.insert(0, region);
            proof {
                let regs = regions_for(memory@, (n + 1) as nat);
                assert forall|i: int| 0 <= i < regions@.len() implies {
                    &&& (#[trigger] regions@[i]).wf()
                    &&& regions@[i].first_page_spec() == regs[i].0
                    &&& regions@[i].pages_spec() == regs[i].1
                    &&& regions@[i].pages_free_spec() == regs[i].1
                    &&& forall|k: int| 0 <= k < regs[i].1 ==> #[trigger] regions@[i].used()[k] == (k >= BITMAP_PAGES)
                } by {
                    if i > 0 {
                        assert(regions@[i] == old_regions[i - 1]);
                        assert(regs[i] == prev[i - 1]);
                    }
                }
            }
            n += 1;
        }
        if regions.len() == 0 {
            return Err("no valid region in the provided list".to_string());
        }
        Ok(Self { regions })
    }

    /// Allocates a page from the first region that counts a free page.
    pub fn alloc_page(&mut self) -> (r: Option<PhysicalAddress>)
        requires
            old(self).wf(),
        ensures
            final(self).wf(),
            alloc_outcome(*old(self), *final(self), r),
    {
        let mut i: usize = 0;
        while i < self.regions.len()
            invariant
                i <= self.regions@.len(),
                self.regions@ == old(self).regions@,
                self.wf(),
                forall|j: int| 0 <= j < i ==> #[trigger] self.regions@[j].pages_free_spec() == 0,
            decreases self.regions@.len() - i,
        {
            if self.regions[i].pages_free > 0 {
                let ghost before = self.regions@;
                assert(self.regions_spec()[i as int].wf());
                let res = self.regions[i].alloc_in_region();
                proof {
                    let b = before;
                    let a = self.regions@;
                    let ii = i as int;
                    assert(b == old(self).regions_spec());
                    assert(a == self.regions_spec());
                    let d = choose|d: int| #[trigger] b[ii].first_stop(d) && {
                        let k = b[ii].scan(d);
                        if k < BITMAP_PAGES {
                            &&& res == Some(PhysicalAddress(b[ii].page_address(k) as u64))
                            &&& a[ii].used() == b[ii].used().update(k, true)
                            &&& a[ii].pages_free_spec() == b[ii].pages_free_spec() - 1
                            &&& a[ii].next_check_spec() == (k + 1) % (b[ii].pages_spec() as int)
                            &&& a[ii].first_page_spec() == b[ii].first_page_spec()
                            &&& a[ii].pages_spec() == b[ii].pages_spec()
                        } else {
                            res is None && a[ii] == b[ii]
                        }
                    };
                    let k = b[ii].scan(d);
                    assert(forall|j: int| 0 <= j < b.len() && j != ii ==> #[trigger] a[j] == b[j]);
                    if k < BITMAP_PAGES {
                        assert(!b[ii].used()[k]);
                        assert(0 <= k < b[ii].pages_spec());
                        assert(b[ii].page_address(k) <= u64::MAX) by (nonlinear_arith)
                            requires
                                0 <= k < b[ii].pages_spec(),
                                b[ii].page_address(k) == b[ii].first_page_spec() + k * 4096,
                                b[ii].first_page_spec() + b[ii].pages_spec() * 4096 <= u64::MAX,
                                b[ii].first_page_spec() >= 0;
                        assert forall|j: int| 0 <= j < self.regions_spec().len() implies (#[trigger] self.regions_spec()[j]).wf() by {
                            if j != i {
                                assert(a[j] == b[j]);
                                assert(old(self).regions_spec()[j].wf());
                            }
                        }
                    } else {
                        assert(a =~= b);
                        assert(b[ii].search_refused());
                    }
                }
                match res {
                    Some(page) => {
                        return Some(page);
                    },
                    None => {
                        return None;
                    },
                }
            }
            i += 1;
        }
        None
    }

    /// Whether `page` can be freed: some region holds it, and every region that holds it
    /// keeps its page in the bitmap.
    pub fn can_free(&self, page: PhysicalAddress) -> (r: bool)
        requires
            self.wf(),
        ensures
            r == ((exists|i: int| 0 <= i < self.regions_spec().len() && #[trigger] region_holds(self.regions_spec(), i, page.0))
                && forall|i: int| 0 <= i < self.regions_spec().len() && #[trigger] region_holds(self.regions_spec(), i, page.0)
                    ==> (page.0 - self.regions_spec()[i].first_page_spec()) / (PAGE_SIZE as int) < BITMAP_PAGES),
    {
        let mut found = false;
        let mut within = true;
        let mut i: usize = 0;
        while i < self.regions.len()
            invariant
                i <= self.regions@.len(),
                self.wf(),
                found == exists|j: int| 0 <= j < i && #[trigger] region_holds(self.regions_spec(), j, page.0),
                within == forall|j: int| 0 <= j < i && #[trigger] region_holds(self.regions_spec(), j, page.0)
                    ==> (page.0 - self.regions_spec()[j].first_page_spec()) / (PAGE_SIZE as int) < BITMAP_PAGES,
            decreases self.regions@.len() - i,
        {
            proof {
                assert(self.regions_spec()[i as int].wf());
            }
            if self.regions[i].contains_page(page) {
                found = true;
                let offset: u64 = page.0 - self.regions[i].first_page.0;
                if offset / PAGE_SIZE >= BITMAP_PAGES as u64 {
                    within = false;
                }
            }
            proof {
                assert(region_holds(self.regions_spec(), i as int, page.0) == (self.regions_spec()[i as int].first_page_spec() <= page.0
                    < self.regions_spec()[i as int].page_address(self.regions_spec()[i as int].pages_spec() as int)));
            }
            i = i + 1;
        }
        found && within
    }

    /// Marks `page` free in the first region that holds it. The regions' kept counts of
    /// free pages stay as they were.
    pub fn free_page(&mut self, page: PhysicalAddress)
        requires
            old(self).wf(),
            exists|i: int| 0 <= i < old(self).regions_spec().len() && #[trigger] region_holds(old(self).regions_spec(), i, page.0),
            forall|i: int| 0 <= i < old(self).regions_spec().len() && #[trigger] region_holds(old(self).regions_spec(), i, page.0)
                ==> (page.0 - old(self).regions_spec()[i].first_page_spec()) / (PAGE_SIZE as int) < BITMAP_PAGES,
        ensures
            final(self).wf(),
            free_outcome(*old(self), *final(self), page.0),
    {
        let mut i: usize = 0;
        while i < self.regions.len()
            invariant
                i <= self.regions@.len(),
                self.regions@ == old(self).regions@,
                self.wf(),
                exists|i: int| 0 <= i < old(self).regions_spec().len() && #[trigger] region_holds(old(self).regions_spec(), i, page.0),
                forall|i: int| 0 <= i < old(self).regions_spec().len() && #[trigger] region_holds(old(self).regions_spec(), i, page.0)
                    ==> (page.0 - old(self).regions_spec()[i].first_page_spec()) / (PAGE_SIZE as int) < BITMAP_PAGES,
                forall|j: int| 0 <= j < i ==> !#[trigger] region_holds(old(self).regions_spec(), j, page.0),
            decreases self.regions@.len() - i,
        {
            assert(self.regions_spec()[i as int].wf());
            if self.regions[i].contains_page(page) {
                let ghost before = self.regions@;
                proof {
                    assert(region_holds(old(self).regions_spec(), i as int, page.0));
                    assert(self.regions_spec()[i as int] == old(self).regions_spec()[i as int]);
                }
                self.regions[i].free_page(page);
                proof {
                    let a = self.regions@;
                    assert(region_holds(old(self).regions_spec(), i as int, page.0));
                    assert forall|j: int| 0 <= j < self.regions_spec().len() implies (#[trigger] self.regions_spec()[j]).wf() by {
                        if j != i {
                            assert(a[j] == before[j]);
                            assert(old(self).regions_spec()[j].wf());
                        }
                    }
                }
                return;
            }
            assert(!region_holds(old(self).regions_spec(), i as int, page.0));
            i += 1;
        }
        proof {
            let w = choose|w: int| 0 <= w < old(self).regions_spec().len() && #[trigger] region_holds(old(self).regions_spec(), w, page.0);
            assert(!region_holds(old(self).regions_spec(), w, page.0));
        }
    }
}

/// A page that allocation hands out was not in use, and is in use afterwards (with regions
/// that share no page).
pub proof fn lemma_alloc_hands_out_unused_page(before: PhysicalMemoryManager, after: PhysicalMemoryManager, p: PhysicalAddress)
    requires
        before.wf(),
        before.regions_disjoint(),
        alloc_outcome(before, after, Some(p)),
    ensures
        !before.page_in_use(p.0),
        after.page_in_use(p.0),
{
    let b = before.regions_spec();
    let a = after.regions_spec();
    let (i, k) = choose|i: int, k: int| {
        &&& 0 <= i < b.len()
        &&& #[trigger] b[i].pages_free_spec() > 0
        &&& forall|j: int| 0 <= j < i ==> #[trigger] b[j].pages_free_spec() == 0
        &&& 0 <= k < b[i].pages_spec()
        &&& !#[trigger] b[i].used()[k]
        &&& p.0 == b[i].page_address(k)
        &&& a.len() == b.len()
        &&& a[i].used() == b[i].used().update(k, true)
        &&& a[i].pages_free_spec() == b[i].pages_free_spec() - 1
        &&& a[i].first_page_spec() == b[i].first_page_spec()
        &&& a[i].pages_spec() == b[i].pages_spec()
        &&& forall|j: int| 0 <= j < b.len() && j != i ==> #[trigger] a[j] == b[j]
    };
    assert(a[i].used()[k]);
    assert(after.page_in_use(p.0));
    if before.page_in_use(p.0) {
        let (i2, k2) = choose|i2: int, k2: int| 0 <= i2 < b.len() && 0 <= k2 < b[i2].pages_spec()
            && p.0 == b[i2].page_address(k2) && #[trigger] b[i2].used()[k2];
        if i2 == i {
            assert(k2 == k) by (nonlinear_arith)
                requires
                    b[i].first_page_spec() + k2 * 4096 == b[i].first_page_spec() + k * 4096;
        } else {
            assert(b[i].page_address(b[i].pages_spec() as int) <= b[i2].first_page_spec()
                || b[i2].page_address(b[i2].pages_spec() as int) <= b[i].first_page_spec());
            assert(b[i].page_address(k) < b[i].page_address(b[i].pages_spec() as int)) by (nonlinear_arith)
                requires
                    k < b[i].pages_spec(),
                    b[i].page_address(k) == b[i].first_page_spec() + k * 4096,
                    b[i].page_address(b[i].pages_spec() as int) == b[i].first_page_spec() + b[i].pages_spec() * 4096;
            assert(b[i2].page_address(k2) < b[i2].page_address(b[i2].pages_spec() as int)) by (nonlinear_arith)
                requires
                    k2 < b[i2].pages_spec(),
                    b[i2].page_address(k2) == b[i2].first_page_spec() + k2 * 4096,
                    b[i2].page_address(b[i2].pages_spec() as int) == b[i2].first_page_spec() + b[i2].pages_spec() * 4096;
            assert(b[i].page_address(k) >= b[i].first_page_spec());
            assert(b[i2].page_address(k2) >= b[i2].first_page_spec());
        }
    }
}


/// Allocation keeps every region's place: regions that shared no page still share none.
pub proof fn lemma_alloc_keeps_regions_disjoint(before: PhysicalMemoryManager, after: PhysicalMemoryManager, r: Option<PhysicalAddress>)
    requires
        before.regions_disjoint(),
        alloc_outcome(before, after, r),
    ensures
        after.regions_disjoint(),
{
    let b = before.regions_spec();
    let a = after.regions_spec();
    if let Some(p) = r {
        let (i, k) = choose|i: int, k: int| {
            &&& 0 <= i < b.len()
            &&& #[trigger] b[i].pages_free_spec() > 0
            &&& forall|j: int| 0 <= j < i ==> #[trigger] b[j].pages_free_spec() == 0
            &&& 0 <= k < b[i].pages_spec()
            &&& !#[trigger] b[i].used()[k]
            &&& p.0 == b[i].page_address(k)
            &&& a.len() == b.len()
            &&& a[i].used() == b[i].used().update(k, true)
            &&& a[i].pages_free_spec() == b[i].pages_free_spec() - 1
            &&& a[i].first_page_spec() == b[i].first_page_spec()
            &&& a[i].pages_spec() == b[i].pages_spec()
            &&& forall|j: int| 0 <= j < b.len() && j != i ==> #[trigger] a[j] == b[j]
        };
        assert forall|x: int, y: int| 0 <= x < a.len() && 0 <= y < a.len() && x != y implies
            #[trigger] a[x].page_address(a[x].pages_spec() as int) <= a[y].first_page_spec()
            || #[trigger] a[y].page_address(a[y].pages_spec() as int) <= a[x].first_page_spec() by {
            assert(b[x].page_address(b[x].pages_spec() as int) <= b[y].first_page_spec()
                || b[y].page_address(b[y].pages_spec() as int) <= b[x].first_page_spec());
            if x != i {
                assert(a[x] == b[x]);
            }
            if y != i {
                assert(a[y] == b[y]);
            }
        }
    }
}

/// Two allocations in a row, with no free in between, hand out different pages.
pub proof fn lemma_successive_allocations_differ(
    s0: PhysicalMemoryManager,
    s1: PhysicalMemoryManager,
    s2: PhysicalMemoryManager,
    p: PhysicalAddress,
    q: PhysicalAddress,
)
    requires
        s0.wf(),
        s1.wf(),
        s0.regions_disjoint(),
        alloc_outcome(s0, s1, Some(p)),
        alloc_outcome(s1, s2, Some(q)),
    ensures
        p != q,
{
    lemma_alloc_hands_out_unused_page(s0, s1, p);
    lemma_alloc_keeps_regions_disjoint(s0, s1, Some(p));
    lemma_alloc_hands_out_unused_page(s1, s2, q);
}

/// Allocation takes no page out of use: a page in use before is in use after.
pub proof fn lemma_alloc_keeps_pages_in_use(before: PhysicalMemoryManager, after: PhysicalMemoryManager, r: Option<PhysicalAddress>, x: u64)
    requires
        alloc_outcome(before, after, r),
        before.page_in_use(x),
    ensures
        after.page_in_use(x),
{
    let b = before.regions_spec();
    let a = after.regions_spec();
    let (i2, k2) = choose|i2: int, k2: int| 0 <= i2 < b.len() && 0 <= k2 < b[i2].pages_spec()
        && x == b[i2].page_address(k2) && #[trigger] b[i2].used()[k2];
    if let Some(p) = r {
        let (i, k) = choose|i: int, k: int| {
            &&& 0 <= i < b.len()
            &&& #[trigger] b[i].pages_free_spec() > 0
            &&& forall|j: int| 0 <= j < i ==> #[trigger] b[j].pages_free_spec() == 0
            &&& 0 <= k < b[i].pages_spec()
            &&& !#[trigger] b[i].used()[k]
            &&& p.0 == b[i].page_address(k)
            &&& a.len() == b.len()
            &&& a[i].used() == b[i].used().update(k, true)
            &&& a[i].pages_free_spec() == b[i].pages_free_spec() - 1
            &&& a[i].first_page_spec() == b[i].first_page_spec()
            &&& a[i].pages_spec() == b[i].pages_spec()
            &&& forall|j: int| 0 <= j < b.len() && j != i ==> #[trigger] a[j] == b[j]
        };
        if i2 == i {
            assert(a[i].used()[k2]);
        } else {
            assert(a[i2] == b[i2]);
        }
        assert(a[i2].used()[k2]);
    } else {
        assert(a == b);
    }
}

/// Over a run of successful allocations from a well-formed manager whose regions share no
/// page, no page is handed out twice.
pub proof fn lemma_allocation_run_distinct(states: Seq<PhysicalMemoryManager>, pages: Seq<PhysicalAddress>, j: int, k: int)
    requires
        states.len() == pages.len() + 1,
        forall|i: int| 0 <= i < states.len() ==> (#[trigger] states[i]).wf(),
        states[0].regions_disjoint(),
        forall|i: int| 0 <= i < pages.len() ==> alloc_outcome(#[trigger] states[i], states[i + 1], Some(pages[i])),
        0 <= j < k < pages.len(),
    ensures
        pages[j] != pages[k],
{
    lemma_run_disjoint(states, pages, k);
    lemma_run_disjoint(states, pages, j);
    lemma_alloc_hands_out_unused_page(states[j], states[j + 1], pages[j]);
    lemma_run_keeps_in_use(states, pages, j + 1, k, pages[j].0);
    lemma_alloc_hands_out_unused_page(states[k], states[k + 1], pages[k]);
}

proof fn lemma_run_disjoint(states: Seq<PhysicalMemoryManager>, pages: Seq<PhysicalAddress>, n: int)
    requires
        states.len() == pages.len() + 1,
        states[0].regions_disjoint(),
        forall|i: int| 0 <= i < pages.len() ==> alloc_outcome(#[trigger] states[i], states[i + 1], Some(pages[i])),
        0 <= n < states.len(),
    ensures
        states[n].regions_disjoint(),
    decreases n,
{
    if n > 0 {
        lemma_run_disjoint(states, pages, n - 1);
        assert(alloc_outcome(states[n - 1], states[n], Some(pages[n - 1])));
        lemma_alloc_keeps_regions_disjoint(states[n - 1], states[n], Some(pages[n - 1]));
    }
}

proof fn lemma_run_keeps_in_use(states: Seq<PhysicalMemoryManager>, pages: Seq<PhysicalAddress>, from: int, to: int, x: u64)
    requires
        states.len() == pages.len() + 1,
        forall|i: int| 0 <= i < pages.len() ==> alloc_outcome(#[trigger] states[i], states[i + 1], Some(pages[i])),
        0 <= from <= to < states.len(),
        states[from].page_in_use(x),
    ensures
        states[to].page_in_use(x),
    decreases to - from,
{
    if from < to {
        assert(alloc_outcome(states[from], states[from + 1], Some(pages[from])));
        lemma_alloc_keeps_pages_in_use(states[from], states[from + 1], Some(pages[from]), x);
        lemma_run_keeps_in_use(states, pages, from + 1, to, x);
    }
}

/// Every region's first page lies on a page boundary.
pub open spec fn regions_page_aligned(pmm: PhysicalMemoryManager) -> bool {
    forall|i: int| 0 <= i < pmm.regions_spec().len() ==> (#[trigger] pmm.regions_spec()[i]).first_page_spec() % PAGE_SIZE == 0
}

/// Freeing keeps every region's place: regions that shared no page still share none, and
/// their first pages stay where they were.
pub proof fn lemma_free_keeps_regions(before: PhysicalMemoryManager, after: PhysicalMemoryManager, page: u64)
    requires
        free_outcome(before, after, page),
    ensures
        before.regions_disjoint() ==> after.regions_disjoint(),
        regions_page_aligned(before) ==> regions_page_aligned(after),
{
    let b = before.regions_spec();
    let a = after.regions_spec();
    let i = choose|i: int| {
        &&& 0 <= i < b.len()
        &&& #[trigger] region_holds(b, i, page)
        &&& forall|j: int| 0 <= j < i ==> !#[trigger] region_holds(b, j, page)
        &&& a.len() == b.len()
        &&& a[i].used() == b[i].used().update((page - b[i].first_page_spec()) / PAGE_SIZE as int, false)
        &&& a[i].pages_free_spec() == b[i].pages_free_spec()
        &&& a[i].first_page_spec() == b[i].first_page_spec()
        &&& a[i].pages_spec() == b[i].pages_spec()
        &&& forall|j: int| 0 <= j < b.len() && j != i ==> #[trigger] a[j] == b[j]
    };
    if before.regions_disjoint() {
        assert forall|x: int, y: int| 0 <= x < a.len() && 0 <= y < a.len() && x != y implies
            #[trigger] a[x].page_address(a[x].pages_spec() as int) <= a[y].first_page_spec()
            || #[trigger] a[y].page_address(a[y].pages_spec() as int) <= a[x].first_page_spec() by {
            assert(b[x].page_address(b[x].pages_spec() as int) <= b[y].first_page_spec()
                || b[y].page_address(b[y].pages_spec() as int) <= b[x].first_page_spec());
            if x != i {
                assert(a[x] == b[x]);
            }
            if y != i {
                assert(a[y] == b[y]);
            }
        }
    }
    if regions_page_aligned(before) {
        assert forall|x: int| 0 <= x < a.len() implies (#[trigger] a[x]).first_page_spec() % PAGE_SIZE == 0 by {
            assert(b[x].first_page_spec() % PAGE_SIZE == 0);
            if x != i {
                assert(a[x] == b[x]);
            }
        }
    }
}

/// Freeing a page-aligned address takes no other page out of use, where regions start on
/// page boundaries and share no page.
pub proof fn lemma_free_keeps_other_pages_in_use(before: PhysicalMemoryManager, after: PhysicalMemoryManager, page: u64, x: u64)
    requires
        free_outcome(before, after, page),
        page % PAGE_SIZE == 0,
        regions_page_aligned(before),
        before.regions_disjoint(),
        before.page_in_use(x),
        x != page,
    ensures
        after.page_in_use(x),
{
    let b = before.regions_spec();
    let a = after.regions_spec();
    let i = choose|i: int| {
        &&& 0 <= i < b.len()
        &&& #[trigger] region_holds(b, i, page)
        &&& forall|j: int| 0 <= j < i ==> !#[trigger] region_holds(b, j, page)
        &&& a.len() == b.len()
        &&& a[i].used() == b[i].used().update((page - b[i].first_page_spec()) / PAGE_SIZE as int, false)
        &&& a[i].pages_free_spec() == b[i].pages_free_spec()
        &&& a[i].first_page_spec() == b[i].first_page_spec()
        &&& a[i].pages_spec() == b[i].pages_spec()
        &&& forall|j: int| 0 <= j < b.len() && j != i ==> #[trigger] a[j] == b[j]
    };
    let (i2, k2) = choose|i2: int, k2: int| 0 <= i2 < b.len() && 0 <= k2 < b[i2].pages_spec()
        && x == b[i2].page_address(k2) && #[trigger] b[i2].used()[k2];
    if i2 != i {
        assert(a[i2] == b[i2]);
        assert(a[i2].used()[k2]);
    } else {
        let f = b[i].first_page_spec() as int;
        let t = (page - f) / 4096;
        assert(f % 4096 == 0);
        if t == k2 {
            assert(page == f + k2 * 4096) by (nonlinear_arith)
                requires
                    t == (page - f) / 4096,
                    t == k2,
                    f <= page,
                    f % 4096 == 0,
                    page % 4096 == 0;
            assert(false);
        }
        assert(a[i].used()[k2]);
    }
}

/// A run of page operations on a manager: step `i` takes `states[i]` to `states[i + 1]`,
/// handing out page `pages[i]` where `allocs[i]` holds, and freeing the page-aligned
/// address `pages[i]` where it does not.
pub open spec fn page_run(states: Seq<PhysicalMemoryManager>, allocs: Seq<bool>, pages: Seq<u64>) -> bool {
    &&& states.len() == pages.len() + 1
    &&& allocs.len() == pages.len()
    &&& forall|i: int| 0 <= i < pages.len() ==> if #[trigger] allocs[i] {
        alloc_outcome(states[i], states[i + 1], Some(PhysicalAddress(pages[i])))
    } else {
        free_outcome(states[i], states[i + 1], pages[i]) && pages[i] % PAGE_SIZE == 0
    }
}

proof fn lemma_page_run_regions(states: Seq<PhysicalMemoryManager>, allocs: Seq<bool>, pages: Seq<u64>, n: int)
    requires
        page_run(states, allocs, pages),
        states[0].regions_disjoint(),
        regions_page_aligned(states[0]),
        0 <= n < states.len(),
    ensures
        states[n].regions_disjoint(),
        regions_page_aligned(states[n]),
    decreases n,
{
    if n > 0 {
        let m = n - 1;
        lemma_page_run_regions(states, allocs, pages, m);
        if allocs[m] {
            lemma_alloc_keeps_regions_disjoint(states[m], states[n], Some(PhysicalAddress(pages[m])));
            let b = states[m].regions_spec();
            let a = states[n].regions_spec();
            let (i, k) = choose|i: int, k: int| {
                &&& 0 <= i < b.len()
                &&& #[trigger] b[i].pages_free_spec() > 0
                &&& forall|j: int| 0 <= j < i ==> #[trigger] b[j].pages_free_spec() == 0
                &&& 0 <= k < b[i].pages_spec()
                &&& !#[trigger] b[i].used()[k]
                &&& pages[m] == b[i].page_address(k)
                &&& a.len() == b.len()
                &&& a[i].used() == b[i].used().update(k, true)
                &&& a[i].pages_free_spec() == b[i].pages_free_spec() - 1
                &&& a[i].first_page_spec() == b[i].first_page_spec()
                &&& a[i].pages_spec() == b[i].pages_spec()
                &&& forall|j: int| 0 <= j < b.len() && j != i ==> #[trigger] a[j] == b[j]
            };
            assert forall|x: int| 0 <= x < a.len() implies (#[trigger] a[x]).first_page_spec() % PAGE_SIZE == 0 by {
                assert(b[x].first_page_spec() % PAGE_SIZE == 0);
                if x != i {
                    assert(a[x] == b[x]);
                }
            }
        } else {
            lemma_free_keeps_regions(states[m], states[n], pages[m]);
        }
    }
}

proof fn lemma_page_run_keeps_in_use(states: Seq<PhysicalMemoryManager>, allocs: Seq<bool>, pages: Seq<u64>, from: int, to: int, x: u64)
    requires
        page_run(states, allocs, pages),
        states[0].regions_disjoint(),
        regions_page_aligned(states[0]),
        0 <= from <= to < states.len(),
        forall|m: int| from <= m < to && !#[trigger] allocs[m] ==> pages[m] != x,
        states[from].page_in_use(x),
    ensures
        states[to].page_in_use(x),
    decreases to - from,
{
    if from < to {
        lemma_page_run_regions(states, allocs, pages, from);
        if allocs[from] {
            lemma_alloc_keeps_pages_in_use(states[from], states[from + 1], Some(PhysicalAddress(pages[from])), x);
        } else {
            lemma_free_keeps_other_pages_in_use(states[from], states[from + 1], pages[from], x);
        }
        lemma_page_run_keeps_in_use(states, allocs, pages, from + 1, to, x);
    }
}

/// Over any run of allocations and frees on a well-formed manager whose regions start on
/// page boundaries and share no page, a page handed out is not handed out again until it
/// has been freed: an allocation never returns a page that an earlier allocation returned
/// and no free in between gave back.
pub proof fn lemma_no_page_handed_out_twice(states: Seq<PhysicalMemoryManager>, allocs: Seq<bool>, pages: Seq<u64>, j: int, k: int)
    requires
        page_run(states, allocs, pages),
        forall|i: int| 0 <= i < states.len() ==> (#[trigger] states[i]).wf(),
        states[0].regions_disjoint(),
        regions_page_aligned(states[0]),
        0 <= j < k < pages.len(),
        allocs[j],
        allocs[k],
        forall|m: int| j < m < k && !#[trigger] allocs[m] ==> pages[m] != pages[j],
    ensures
        pages[j] != pages[k],
{
    lemma_page_run_regions(states, allocs, pages, j);
    lemma_page_run_regions(states, allocs, pages, k);
    lemma_alloc_hands_out_unused_page(states[j], states[j + 1], PhysicalAddress(pages[j]));
    lemma_page_run_keeps_in_use(states, allocs, pages, j + 1, k, pages[j]);
    lemma_alloc_hands_out_unused_page(states[k], states[k + 1], PhysicalAddress(pages[k]));
}

/// Ranges that start on page boundaries give regions whose first pages do too.
pub proof fn lemma_regions_for_aligned(memory: Seq<Range<PhysicalAddress>>, n: nat)
    requires
        n <= memory.len(),
        forall|i: int| 0 <= i < memory.len() ==> (#[trigger] memory[i]).start.0 % PAGE_SIZE == 0,
    ensures
        forall|i: int| 0 <= i < regions_for(memory, n).len() ==> (#[trigger] regions_for(memory, n)[i]).0 % PAGE_SIZE == 0,
    decreases n,
{
    if n > 0 {
        lemma_regions_for_aligned(memory, (n - 1) as nat);
        let prev = regions_for(memory, (n - 1) as nat);
        if let Some(r) = region_for_range(memory[n - 1]) {
            assert(memory[n - 1].start.0 % PAGE_SIZE == 0);
            assert(r.0 % PAGE_SIZE == 0);
            assert forall|i: int| 0 <= i < regions_for(memory, n).len() implies (#[trigger] regions_for(memory, n)[i]).0 % PAGE_SIZE == 0 by {
                assert(regions_for(memory, n) == seq![r] + prev);
                if i > 0 {
                    assert(regions_for(memory, n)[i] == prev[i - 1]);
                }
            }
        }
    }
}

} // verus!
