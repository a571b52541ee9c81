//! The bootloader's page allocators: the firmware's before boot services are left, and
//! afterwards a chain of bump areas over the free memory that the firmware reported.
use vstd::prelude::*;

use crate::common::allocation::PageAllocator;

verus! {

/// Size of a page.
pub const PAGE_SIZE: u64 = 4096;

/// A run of free pages handed out from the bottom up: `current` of its `size` pages,
/// starting at `start`, are taken.
#[derive(Debug, Clone, Copy)]
pub struct Area {
    start: u64,
    current: u64,
    size: u64,
}

impl Area {
    /// The address of the first page.
    pub closed spec fn start_spec(&self) -> u64 {
        self.start
    }

    /// The number of pages taken.
    pub closed spec fn current_spec(&self) -> u64 {
        self.current
    }

    /// The number of pages in the area.
    pub closed spec fn size_spec(&self) -> u64 {
        self.size
    }

    /// The taken pages are within the area, and the area within the address space: what
    /// every area keeps.
    pub open spec fn bounded(&self) -> bool {
        &&& self.current_spec() <= self.size_spec()
        &&& self.start_spec() + self.size_spec() * PAGE_SIZE <= u64::MAX
    }

    /// The taken pages are within the area, and the area within the address space.
    #[verifier::type_invariant]
    closed spec fn wf(&self) -> bool {
        &&& self.current <= self.size
        &&& self.start + self.size * PAGE_SIZE <= u64::MAX
    }

    /// The area of `size` pages at `start`, none taken.
    pub fn new(start: u64, size: u64) -> (r: Self)
        requires
            start + size * PAGE_SIZE <= u64::MAX,
        ensures
            r.start_spec() == start,
            r.size_spec() == size,
            r.current_spec() == 0,
            r.bounded(),
    {
        Self { start, current: 0, size }
    }

    /// Takes the next `pages` pages when the area still holds them: their address, with the
    /// area's count moved past them. `None`, with nothing changed, otherwise.
    pub fn take(&mut self, pages: usize) -> (r: Option<u64>)
        ensures
            old(self).bounded(),
            final(self).bounded(),
            final(self).start_spec() == old(self).start_spec(),
            final(self).size_spec() == old(self).size_spec(),
            old(self).current_spec() + pages <= old(self).size_spec() ==> {
                &&& r == Some((old(self).start_spec() + old(self).current_spec() * PAGE_SIZE) as u64)
                &&& final(self).current_spec() == old(self).current_spec() + pages
            },
            old(self).current_spec() + pages > old(self).size_spec() ==> r is None && *final(self) == *old(self),
    {
        proof {
            use_type_invariant(&*self);
        }
        if pages as u64 <= self.size - self.current {
            let allocated: u64 = self.current;
            self.current = self.current + pages as u64;
            proof {
                vstd::arithmetic::mul::lemma_mul_inequality(allocated as int, self.size as int, PAGE_SIZE as int);
            }
            Some(self.start + allocated * PAGE_SIZE)
        } else {
            None
        }
    }
}

impl PageAllocator for Area {
    /// The area's next `pages` pages when it still holds them, its count moved past them;
    /// 0, with nothing changed, otherwise.
    open spec fn alloc_outcome(&self, after: &Self, pages: usize, r: u64) -> bool {
        &&& self.bounded()
        &&& after.bounded()
        &&& after.start_spec() == self.start_spec()
        &&& after.size_spec() == self.size_spec()
        &&& if self.current_spec() + pages <= self.size_spec() {
            &&& r == (self.start_spec() + self.current_spec() * PAGE_SIZE) as u64
            &&& after.current_spec() == self.current_spec() + pages
        } else {
            r == 0 && after.current_spec() == self.current_spec()
        }
    }

    /// The next `pages` pages of the area, or 0 when it does not hold them.
    fn alloc_pages(&mut self, pages: usize) -> (r: u64) {
        match self.take(pages) {
            Some(address) => address,
            None => 0,
        }
    }

    /// Freeing changes nothing.
    open spec fn dealloc_outcome(&self, after: &Self, address: u64, pages: usize) -> bool {
        *after == *self
    }

    /// Freeing does nothing.
    fn dealloc_pages(&mut self, address: u64, pages: usize) {
    }
}

/// Whether `area` has room for `pages` more pages.
pub open spec fn has_room(area: Area, pages: int) -> bool {
    area.current_spec() + pages <= area.size_spec()
}

/// The first of `areas` with room for `pages` pages, if any.
pub open spec fn first_fit(areas: Seq<Area>, pages: int) -> Option<int> {
    if exists|i: int| 0 <= i < areas.len() && has_room(#[trigger] areas[i], pages) {
        Some(choose|i: int| 0 <= i < areas.len() && has_room(#[trigger] areas[i], pages)
            && forall|j: int| 0 <= j < i ==> !has_room(#[trigger] areas[j], pages))
    } else {
        None
    }
}

/// The first page of a free range starting at `start`: page zero is never handed out.
pub open spec fn usable_start(start: u64) -> int {
    if start == 0 { PAGE_SIZE as int } else { start as int }
}

/// A free range that the runtime allocator can take: page-aligned, not empty once page
/// zero is left out.
pub open spec fn range_supported(range: (u64, u64)) -> bool {
    &&& usable_start(range.0) % (PAGE_SIZE as int) == 0
    &&& range.1 % PAGE_SIZE == 0
    &&& range.1 > usable_start(range.0)
}

/// The area that a free range becomes: its first page holds the area's bookkeeping, the
/// pages after it up to the end are handed out.
pub open spec fn area_for(area: Area, range: (u64, u64)) -> bool {
    &&& area.start_spec() == usable_start(range.0) + PAGE_SIZE
    &&& area.size_spec() == range_pages(range)
    &&& area.current_spec() == 0
}

/// What taking `pages` pages from the chain of areas `before` gives and leaves in `after`:
/// the first area with room hands out its next pages and counts them taken, the others stay
/// as they were; 0, with nothing changed, when no area has room.
pub open spec fn taken_from_areas(before: Seq<Area>, after: Seq<Area>, pages: int, r: u64) -> bool {
    &&& after.len() == before.len()
    &&& match first_fit(before, pages) {
        Some(i) => {
            &&& r == (before[i].start_spec() + before[i].current_spec() * PAGE_SIZE) as u64
            &&& forall|j: int| 0 <= j < before.len() && j != i ==> #[trigger] after[j] == before[j]
            &&& after[i].start_spec() == before[i].start_spec()
            &&& after[i].size_spec() == before[i].size_spec()
            &&& after[i].current_spec() == before[i].current_spec() + pages
        },
        None => r == 0 && after == before,
    }
}

/// The number of pages that free range `range` gives to hand out.
#[verifier::opaque]
pub open spec fn range_pages(range: (u64, u64)) -> int {
    (range.1 - usable_start(range.0) - PAGE_SIZE) / (PAGE_SIZE as int)
}

/// The first of the free ranges `ranges` that gives at least `pages` pages, if any.
pub open spec fn first_range_with_room(ranges: Seq<(u64, u64)>, pages: int) -> Option<int> {
    if exists|i: int| 0 <= i < ranges.len() && pages <= range_pages(#[trigger] ranges[i]) {
        Some(choose|i: int| 0 <= i < ranges.len() && pages <= range_pages(#[trigger] ranges[i])
            && forall|j: int| 0 <= j < i ==> pages > range_pages(#[trigger] ranges[j]))
    } else {
        None
    }
}

/// The page allocator after boot services are left: a chain of areas over the free memory,
/// tried in order.
#[derive(Debug)]
pub struct RuntimePageAllocator {
    areas: Vec<Area>,
}

impl RuntimePageAllocator {
    /// The areas, in the order they are tried.
    pub closed spec fn areas(&self) -> Seq<Area> {
        self.areas@
    }

    /// Whether `setup` has given the allocator at least one area.
    pub open spec fn is_set_up(&self) -> bool {
        self.areas().len() > 0
    }

    /// Whether `setup` has given the allocator at least one area.
    pub fn ready(&self) -> (r: bool)
        ensures
            r == self.is_set_up(),
    {
        self.areas.len() > 0
    }

    /// The allocator before setup: no areas.
    pub fn new() -> (r: Self)
        ensures
            r.areas().len() == 0,
    {
        Self { areas: Vec::new() }
    }

    /// Builds one area per free range, in the ranges' order. An empty list leaves the
    /// allocator as it was.
    pub fn setup(&mut self, free_memory: &Vec<(u64, u64)>)
        requires
            forall|i: int| 0 <= i < free_memory@.len() ==> range_supported(#[trigger] free_memory@[i]),
        ensures
            free_memory@.len() == 0 ==> final(self).areas() == old(self).areas(),
            free_memory@.len() > 0 ==> {
                &&& final(self).areas().len() == free_memory@.len()
                &&& forall|i: int| 0 <= i < free_memory@.len() ==> area_for(#[trigger] final(self).areas()[i], free_memory@[i])
            },
    {
        let mut areas: Vec<Area> = Vec::new();
        let mut i: usize = 0;
        while i < free_memory.len()
            invariant
                0 <= i <= free_memory@.len(),
                areas@.len() == i,
                forall|k: int| 0 <= k < free_memory@.len() ==> range_supported(#[trigger] free_memory@[k]),
                forall|k: int| 0 <= k < i ==> area_for(#[trigger] areas@[k], free_memory@[k]),
            decreases free_memory@.len() - i,
        {
            let (start, end) = free_memory[i];
            let first: u64 = if start == 0 { PAGE_SIZE } else { start };
            proof {
                assert(range_supported(free_memory@[i as int]));
                let a = first as int / 4096;
                let b = end as int / 4096;
                vstd::arithmetic::div_mod::lemma_fundamental_div_mod(first as int, 4096);
                vstd::arithmetic::div_mod::lemma_fundamental_div_mod(end as int, 4096);
                assert(first as int == 4096 * a);
                assert(end as int == 4096 * b);
                assert(b > a) by (nonlinear_arith)
                    requires end as int == 4096 * b, first as int == 4096 * a, end > first;
                assert(4096 * b >= 4096 * a + 4096) by (nonlinear_arith)
                    requires b > a;
            }
            let area_start: u64 = first + PAGE_SIZE;
            let size: u64 = (end - area_start) / PAGE_SIZE;
            proof {
                vstd::arithmetic::div_mod::lemma_fundamental_div_mod((end - area_start) as int, 4096);
                vstd::arithmetic::div_mod::lemma_mod_bound((end - area_start) as int, 4096);
                assert(size * PAGE_SIZE <= end - area_start);
            }
            proof {
                reveal(range_pages);
            }
            areas.push(Area::new(area_start, size));
            i = i + 1;
        }
        if areas.len() > 0 {
            self.areas = areas;
        }
    }

    /// Takes `pages` pages from the first area with room for them: their address, or 0 when
    /// no area has room.
    pub fn alloc_pages(&mut self, pages: usize) -> (r: u64)
        requires
            old(self).is_set_up(),
        ensures
            final(self).areas().len() == old(self).areas().len(),
            taken_from_areas(old(self).areas(), final(self).areas(), pages as int, r),
    {
        let mut i: usize = 0;
        while i < self.areas.len()
            invariant
                0 <= i <= self.areas@.len(),
                self.areas@ == old(self).areas@,
                forall|j: int| 0 <= j < i ==> !has_room(#[trigger] self.areas@[j], pages as int),
            decreases self.areas@.len() - i,
        {
            let mut area = self.areas[i];
            let taken = area.take(pages);
            match taken {
                Some(address) => {
                    proof {
                        let ghost areas = old(self).areas@;
                        assert(has_room(areas[i as int], pages as int));
                        assert(first_fit(areas, pages as int) is Some);
                        let ghost k = first_fit(areas, pages as int)->0;
                        assert(0 <= k < areas.len() && has_room(areas[k], pages as int));
                        assert(forall|j: int| 0 <= j < k ==> !has_room(#[trigger] areas[j], pages as int));
                        if k < i {
                            assert(!has_room(self.areas@[k], pages as int));
                        }
                        if k > i {
                            assert(!has_room(areas[i as int], pages as int));
                        }
                        assert(k == i);
                    }
                    self.areas.set(i, area);
                    return address;
                },
                None => {},
            }
            i = i + 1;
        }
        proof {
            assert(!exists|j: int| 0 <= j < self.areas@.len() && has_room(#[trigger] self.areas@[j], pages as int));
        }
        0
    }

    /// Freeing does nothing.
    pub fn dealloc_pages(&mut self, address: u64, pages: usize)
        requires
            old(self).is_set_up(),
        ensures
            final(self).areas() == old(self).areas(),
    {
    }
}

/// Which page allocator serves the bootloader.
#[derive(Debug, Clone, Copy, PartialEq, Eq, Structural)]
pub enum ActivePageAllocator {
    Uefi,
    Runtime,
}

/// The bootloader's page allocator: it forwards to the firmware's until boot services are
/// left, and to the runtime allocator afterwards.
#[derive(Debug)]
pub struct BootloaderPageAllocator {
    inner: ActivePageAllocator,
}

impl BootloaderPageAllocator {
    /// Which allocator serves requests.
    pub closed spec fn active_spec(&self) -> ActivePageAllocator {
        self.inner
    }

    /// The allocator that forwards to the firmware.
    pub fn new() -> (r: Self)
        ensures
            r.active_spec() == ActivePageAllocator::Uefi,
    {
        Self { inner: ActivePageAllocator::Uefi }
    }

    /// Which allocator serves requests.
    pub fn active(&self) -> (r: ActivePageAllocator)
        ensures
            r == self.active_spec(),
    {
        self.inner
    }

    /// Makes `page_allocator` serve requests.
    pub fn set_inner(&mut self, page_allocator: ActivePageAllocator)
        ensures
            final(self).active_spec() == page_allocator,
    {
        self.inner = page_allocator;
    }

    /// Makes the runtime allocator serve requests.
    pub fn set_runtime(&mut self)
        ensures
            final(self).active_spec() == ActivePageAllocator::Runtime,
    {
        self.set_inner(ActivePageAllocator::Runtime);
    }
}

proof fn lemma_first_room(areas: Seq<Area>, p: int, k: int) -> (i: int)
    requires
        0 <= k <= areas.len(),
        forall|j: int| 0 <= j < k ==> !has_room(#[trigger] areas[j], p),
        exists|j: int| k <= j < areas.len() && has_room(#[trigger] areas[j], p),
    ensures
        0 <= i < areas.len(),
        has_room(areas[i], p),
        forall|j: int| 0 <= j < i ==> !has_room(#[trigger] areas[j], p),
    decreases areas.len() - k,
{
    if has_room(areas[k], p) {
        k
    } else {
        lemma_first_room(areas, p, k + 1)
    }
}

proof fn lemma_first_fit_valid(areas: Seq<Area>, p: int)
    ensures
        first_fit(areas, p) matches Some(i) ==> 0 <= i < areas.len() && has_room(areas[i], p),
{
    if exists|j: int| 0 <= j < areas.len() && has_room(#[trigger] areas[j], p) {
        let i = lemma_first_room(areas, p, 0);
    }
}

proof fn lemma_first_fit_is_first_range(areas: Seq<Area>, free_memory: Seq<(u64, u64)>, p: int)
    requires
        areas.len() == free_memory.len(),
        forall|i: int| 0 <= i < areas.len() ==> (has_room(#[trigger] areas[i], p) <==> p <= range_pages(free_memory[i])),
    ensures
        first_fit(areas, p) == first_range_with_room(free_memory, p),
{
    if exists|j: int| 0 <= j < areas.len() && has_room(#[trigger] areas[j], p) {
        let i = lemma_first_room(areas, p, 0);
        assert(forall|j: int| 0 <= j < i ==> p > range_pages(#[trigger] free_memory[j])) by {
            assert forall|j: int| 0 <= j < i implies p > range_pages(#[trigger] free_memory[j]) by {
                assert(!has_room(areas[j], p));
            }
        }
        assert(p <= range_pages(free_memory[i]));
        let a = first_fit(areas, p)->0;
        let c = first_range_with_room(free_memory, p)->0;
        assert(0 <= a < areas.len() && has_room(areas[a], p) && forall|j: int| 0 <= j < a ==> !has_room(#[trigger] areas[j], p));
        assert(0 <= c < free_memory.len() && p <= range_pages(free_memory[c])
            && forall|j: int| 0 <= j < c ==> p > range_pages(#[trigger] free_memory[j]));
        if a < i {
            assert(!has_room(areas[a], p));
        }
        if a > i {
            assert(!has_room(areas[i], p));
        }
        if c < i {
            assert(has_room(areas[c], p));
        }
        if c > i {
            assert(p > range_pages(free_memory[i]));
        }
    } else {
        if exists|j: int| 0 <= j < free_memory.len() && p <= range_pages(#[trigger] free_memory[j]) {
            let c = choose|j: int| 0 <= j < free_memory.len() && p <= range_pages(#[trigger] free_memory[j]);
            assert(has_room(areas[c], p));
        }
    }
}

/// Right after setup from a non-empty list of free ranges, an allocation of `pages` pages
/// is served by the first range, in list order, that gives that many pages, from the page
/// after that range's bookkeeping page; it gives 0 when no range does.
pub proof fn lemma_first_allocation_after_setup(
    free_memory: Seq<(u64, u64)>,
    set_up: RuntimePageAllocator,
    after: RuntimePageAllocator,
    pages: usize,
    r: u64,
)
    requires
        free_memory.len() > 0,
        forall|i: int| 0 <= i < free_memory.len() ==> range_supported(#[trigger] free_memory[i]),
        set_up.areas().len() == free_memory.len(),
        forall|i: int| 0 <= i < free_memory.len() ==> area_for(#[trigger] set_up.areas()[i], free_memory[i]),
        taken_from_areas(set_up.areas(), after.areas(), pages as int, r),
    ensures
        match first_range_with_room(free_memory, pages as int) {
            Some(i) => r == usable_start(free_memory[i].0) + PAGE_SIZE,
            None => r == 0,
        },
{
    let areas = set_up.areas();
    let p = pages as int;
    assert forall|i: int| 0 <= i < areas.len() implies (has_room(#[trigger] areas[i], p) <==> p <= range_pages(free_memory[i])) by {
        assert(area_for(areas[i], free_memory[i]));
    }
    lemma_first_fit_is_first_range(areas, free_memory, p);
    match first_fit(areas, p) {
        Some(i) => {
            assert(0 <= i < areas.len()) by {
                lemma_first_fit_valid(areas, p);
            }
            assert(area_for(areas[i], free_memory[i]));
            assert(areas[i].current_spec() == 0);
            assert(areas[i].start_spec() == usable_start(free_memory[i].0) + PAGE_SIZE);
            assert(r == areas[i].start_spec());
        },
        None => {},
    }
}

/// Two allocations in a row from one area that both fit hand out adjacent runs of pages
/// inside the area: the second starts where the first ends.
pub proof fn lemma_area_allocations_adjacent(a0: Area, a1: Area, a2: Area, p1: usize, p2: usize, r1: u64, r2: u64)
    requires
        a0.alloc_outcome(&a1, p1, r1),
        a1.alloc_outcome(&a2, p2, r2),
        a0.current_spec() + p1 + p2 <= a0.size_spec(),
    ensures
        r1 == a0.start_spec() + a0.current_spec() * PAGE_SIZE,
        r2 == r1 + p1 * PAGE_SIZE,
        r2 + p2 * PAGE_SIZE <= a0.start_spec() + a0.size_spec() * PAGE_SIZE,
{
    let c = a0.current_spec() as int;
    let n = a0.size_spec() as int;
    assert(c * 4096 + p1 * 4096 + p2 * 4096 <= n * 4096 && (c + p1) * 4096 == c * 4096 + p1 * 4096) by (nonlinear_arith)
        requires c + p1 + p2 <= n, 0 <= c, 0 <= p1, 0 <= p2;
}

/// Allocations from one area in a row: `states[i]` hands out `results[i]` for `pages[i]`
/// pages and becomes `states[i + 1]`.
pub open spec fn area_run(states: Seq<Area>, pages: Seq<usize>, results: Seq<u64>) -> bool {
    &&& states.len() == pages.len() + 1
    &&& results.len() == pages.len()
    &&& forall|i: int| 0 <= i < pages.len() ==> #[trigger] states[i].alloc_outcome(&states[i + 1], pages[i], results[i])
}

proof fn lemma_area_run_grows(states: Seq<Area>, pages: Seq<usize>, results: Seq<u64>, a: int, b: int)
    requires
        area_run(states, pages, results),
        0 <= a <= b < states.len(),
    ensures
        states[a].current_spec() <= states[b].current_spec(),
        states[b].start_spec() == states[a].start_spec(),
        states[b].size_spec() == states[a].size_spec(),
    decreases b - a,
{
    if a < b {
        lemma_area_run_grows(states, pages, results, a, b - 1);
        let i = b - 1;
        assert(states[i].alloc_outcome(&states[i + 1], pages[i], results[i]));
    }
}

/// The blocks that one area hands out in a run of allocations lie inside the area and do
/// not overlap: a block given later starts at or after the end of every block given
/// before it.
pub proof fn lemma_area_blocks_disjoint(states: Seq<Area>, pages: Seq<usize>, results: Seq<u64>, j: int, k: int)
    requires
        area_run(states, pages, results),
        0 <= j < k < pages.len(),
        has_room(states[j], pages[j] as int),
        has_room(states[k], pages[k] as int),
    ensures
        states[0].start_spec() <= results[j],
        results[j] + pages[j] * PAGE_SIZE <= results[k],
        results[k] + pages[k] * PAGE_SIZE <= states[0].start_spec() + states[0].size_spec() * PAGE_SIZE,
{
    lemma_area_run_grows(states, pages, results, 0, j);
    lemma_area_run_grows(states, pages, results, j + 1, k);
    lemma_area_run_grows(states, pages, results, 0, k);
    assert(states[j].alloc_outcome(&states[j + 1], pages[j], results[j]));
    assert(states[k].alloc_outcome(&states[k + 1], pages[k], results[k]));
    let s = states[0].start_spec() as int;
    let n = states[0].size_spec() as int;
    let cj = states[j].current_spec() as int;
    let ck = states[k].current_spec() as int;
    let pj = pages[j] as int;
    let pk = pages[k] as int;
    assert(cj + pj <= ck);
    assert(ck + pk <= n);
    assert(cj * 4096 + pj * 4096 <= ck * 4096 && ck * 4096 + pk * 4096 <= n * 4096 && 0 <= cj * 4096) by (nonlinear_arith)
        requires cj + pj <= ck, ck + pk <= n, 0 <= cj, 0 <= pj, 0 <= pk;
}

} // verus!
