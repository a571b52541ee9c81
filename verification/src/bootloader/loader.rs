//! What the bootloader computes between its firmware calls: which kernel sections to load
//! and how many pages each takes, which memory is free once boot services are left, which
//! memory can be reclaimed later, and what the kernel is handed.
use core::ops::Range;
use vstd::prelude::*;

use crate::bits::bit64;
use crate::common::addresses::PhysicalAddress;
use crate::common::bootinfo::BootInfo;
use super::elf::SectionHeader;
use super::uefi2::raw::{
    MemoryDescriptor, BOOT_SERVICES_CODE, BOOT_SERVICES_DATA, CONVENTIONAL_MEMORY, LOADER_CODE, LOADER_DATA,
};

verus! {

/// Size of a page.
pub const PAGE_SIZE: u64 = 4096;

/// The number of pages that `size` bytes take: whole pages, and one more for a rest.
pub open spec fn pages_for(size: u64) -> int {
    size / PAGE_SIZE + if size % PAGE_SIZE > 0 { 1int } else { 0int }
}

/// The number of pages that a section of `size` bytes takes.
pub fn section_pages(size: u64) -> (r: u64)
    ensures
        r == pages_for(size),
        r * PAGE_SIZE >= size,
        r > 0 ==> (r - 1) * PAGE_SIZE < size,
{
    let pages: u64 = size / PAGE_SIZE + if size % PAGE_SIZE > 0 { 1 } else { 0 };
    proof {
        vstd::arithmetic::div_mod::lemma_fundamental_div_mod(size as int, PAGE_SIZE as int);
    }
    pages
}

/// The entries that address `vaddr` selects in the four table levels, from the top one
/// down: its bits 39 to 47, 30 to 38, 21 to 29 and 12 to 20.
pub fn table_indices(vaddr: u64) -> (r: (usize, usize, usize, usize))
    ensures
        r.0 == (vaddr >> 39u64) & 0x1FF,
        r.1 == (vaddr >> 30u64) & 0x1FF,
        r.2 == (vaddr >> 21u64) & 0x1FF,
        r.3 == (vaddr >> 12u64) & 0x1FF,
        r.0 < 512 && r.1 < 512 && r.2 < 512 && r.3 < 512,
{
    let a: u64 = (vaddr >> 39u64) & 0x1FF;
    let b: u64 = (vaddr >> 30u64) & 0x1FF;
    let c: u64 = (vaddr >> 21u64) & 0x1FF;
    let d: u64 = (vaddr >> 12u64) & 0x1FF;
    proof {
        assert(a < 512 && b < 512 && c < 512 && d < 512) by (bit_vector)
            requires
                a == (vaddr >> 39u64) & 0x1FF,
                b == (vaddr >> 30u64) & 0x1FF,
                c == (vaddr >> 21u64) & 0x1FF,
                d == (vaddr >> 12u64) & 0x1FF;
    }
    (a as usize, b as usize, c as usize, d as usize)
}

/// The positions, in order, of the sections that occupy memory at run time.
pub fn allocated_sections(headers: &[SectionHeader]) -> (r: Vec<usize>)
    ensures
        forall|k: int| 0 <= k < r@.len() ==> {
            &&& #[trigger] r@[k] < headers@.len()
            &&& bit64(headers@[r@[k] as int].flags.0, 1)
        },
        forall|k: int, l: int| 0 <= k < l < r@.len() ==> r@[k] < r@[l],
        forall|i: int| 0 <= i < headers@.len() && bit64(#[trigger] headers@[i].flags.0, 1) ==> r@.contains(i as usize),
{
    let mut r: Vec<usize> = Vec::new();
    let mut i: usize = 0;
    while i < headers.len()
        invariant
            0 <= i <= headers@.len(),
            forall|k: int| 0 <= k < r@.len() ==> {
                &&& #[trigger] r@[k] < i
                &&& bit64(headers@[r@[k] as int].flags.0, 1)
            },
            forall|k: int, l: int| 0 <= k < l < r@.len() ==> r@[k] < r@[l],
            forall|j: int| 0 <= j < i && bit64(#[trigger] headers@[j].flags.0, 1) ==> r@.contains(j as usize),
        decreases headers@.len() - i,
    {
        if headers[i].flags.allocated() {
            let ghost old_r = r@;
            r.push(i);
            proof {
                assert forall|j: int| 0 <= j < i + 1 && bit64(#[trigger] headers@[j].flags.0, 1) implies r@.contains(j as usize) by {
                    if j < i {
                        assert(old_r.contains(j as usize));
                        let k = choose|k: int| 0 <= k < old_r.len() && old_r[k] == j as usize;
                        assert(r@[k] == j as usize);
                    } else {
                        assert(r@[r@.len() - 1] == j as usize);
                    }
                }
            }
        }
        i = i + 1;
    }
    r
}

/// The bytes that a memory map entry covers: from its start, as many pages as it counts.
pub open spec fn descriptor_range(d: MemoryDescriptor) -> (u64, u64) {
    (d.physical_start, (d.physical_start + d.page_count * PAGE_SIZE) as u64)
}

/// The entry's end lies within the address space.
pub open spec fn descriptor_fits(d: MemoryDescriptor) -> bool {
    d.physical_start + d.page_count * PAGE_SIZE <= u64::MAX
}

/// The ranges of the entries of `map` whose type is in `types`, in order.
pub open spec fn ranges_of_types(map: Seq<MemoryDescriptor>, types: Set<u32>) -> Seq<(u64, u64)>
    decreases map.len(),
{
    if map.len() == 0 {
        seq![]
    } else {
        let prev = ranges_of_types(map.drop_last(), types);
        if types.contains(map.last().ty.0) {
            prev.push(descriptor_range(map.last()))
        } else {
            prev
        }
    }
}

/// The memory that is free once boot services are left: the conventional memory.
pub open spec fn free_types() -> Set<u32> {
    set![CONVENTIONAL_MEMORY]
}

/// The memory that can be reclaimed once the kernel runs: what the firmware's boot services
/// and the bootloader used.
pub open spec fn reclaimable_types() -> Set<u32> {
    set![BOOT_SERVICES_CODE, BOOT_SERVICES_DATA, LOADER_CODE, LOADER_DATA]
}

/// `ranges` are the ranges of exactly the entries of `map` whose type is in `types`, in map
/// order: the `k`-th range is the range of entry `f[k]`, the picked entries rise, and every
/// entry of such a type is picked.
pub open spec fn picks_entries(map: Seq<MemoryDescriptor>, ranges: Seq<(u64, u64)>, f: Seq<int>, types: Set<u32>) -> bool {
    &&& f.len() == ranges.len()
    &&& forall|k: int| 0 <= k < f.len() ==> 0 <= #[trigger] f[k] < map.len() && types.contains(map[f[k]].ty.0)
        && ranges[k] == descriptor_range(map[f[k]])
    &&& forall|k1: int, k2: int| 0 <= k1 < k2 < f.len() ==> #[trigger] f[k1] < #[trigger] f[k2]
    &&& forall|j: int| 0 <= j < map.len() && types.contains(#[trigger] map[j].ty.0) ==> exists|k: int| 0 <= k < f.len() && f[k] == j
}

proof fn lemma_ranges_pick_entries(map: Seq<MemoryDescriptor>, types: Set<u32>)
    ensures
        exists|f: Seq<int>| #[trigger] picks_entries(map, ranges_of_types(map, types), f, types),
    decreases map.len(),
{
    if map.len() == 0 {
        assert(picks_entries(map, ranges_of_types(map, types), Seq::<int>::empty(), types));
    } else {
        let prev_map = map.drop_last();
        lemma_ranges_pick_entries(prev_map, types);
        let prev = ranges_of_types(prev_map, types);
        let f = choose|f: Seq<int>| #[trigger] picks_entries(prev_map, prev, f, types);
        let n = map.len() - 1;
        assert forall|j: int| 0 <= j < n implies #[trigger] map[j] == prev_map[j] by {}
        if types.contains(map.last().ty.0) {
            let g = f.push(n);
            let r = prev.push(descriptor_range(map.last()));
            assert(ranges_of_types(map, types) == r);
            assert forall|k: int| 0 <= k < g.len() implies 0 <= #[trigger] g[k] < map.len() && types.contains(map[g[k]].ty.0)
                && r[k] == descriptor_range(map[g[k]]) by {
                if k < f.len() {
                    assert(g[k] == f[k] && r[k] == prev[k]);
                    assert(map[f[k]] == prev_map[f[k]]);
                }
            }
            assert forall|k1: int, k2: int| 0 <= k1 < k2 < g.len() implies #[trigger] g[k1] < #[trigger] g[k2] by {
                assert(g[k1] == f[k1]);
                if k2 < f.len() {
                    assert(g[k2] == f[k2]);
                }
            }
            assert forall|j: int| 0 <= j < map.len() && types.contains(#[trigger] map[j].ty.0) implies exists|k: int| 0 <= k < g.len() && g[k] == j by {
                if j < n {
                    assert(types.contains(prev_map[j].ty.0));
                    let k = choose|k: int| 0 <= k < f.len() && f[k] == j;
                    assert(g[k] == j);
                } else {
                    assert(g[f.len() as int] == j);
                }
            }
            assert(picks_entries(map, r, g, types));
        } else {
            assert(ranges_of_types(map, types) == prev);
            assert forall|k: int| 0 <= k < f.len() implies 0 <= #[trigger] f[k] < map.len() && types.contains(map[f[k]].ty.0)
                && prev[k] == descriptor_range(map[f[k]]) by {
                assert(map[f[k]] == prev_map[f[k]]);
            }
            assert forall|j: int| 0 <= j < map.len() && types.contains(#[trigger] map[j].ty.0) implies exists|k: int| 0 <= k < f.len() && f[k] == j by {
                if j < n {
                    assert(types.contains(prev_map[j].ty.0));
                }
            }
            assert(picks_entries(map, prev, f, types));
        }
    }
}

/// The free memory is the conventional memory: the ranges that `free_memory` gives are
/// those of the memory map's entries of type 7 (conventional memory), each once, in map
/// order, and no others; loader data (type 2) and everything else is left out.
pub proof fn lemma_free_memory_is_conventional(map: Seq<MemoryDescriptor>)
    ensures
        exists|f: Seq<int>| #[trigger] picks_entries(map, ranges_of_types(map, free_types()), f, set![7u32]),
{
    assert(free_types() =~= set![7u32]);
    lemma_ranges_pick_entries(map, free_types());
}

/// The reclaimable memory is what the bootloader and the firmware's boot services used:
/// before touching neighbours are joined, the ranges that `reclaimable_memory` starts from
/// are those of the memory map's entries of types 1 and 2 (loader code and data) and 3 and 4
/// (boot services code and data), each once, in map order, and no others.
pub proof fn lemma_reclaimable_memory_types(map: Seq<MemoryDescriptor>)
    ensures
        exists|f: Seq<int>| #[trigger] picks_entries(map, ranges_of_types(map, reclaimable_types()), f,
            set![1u32, 2u32, 3u32, 4u32]),
{
    assert(reclaimable_types() =~= set![1u32, 2u32, 3u32, 4u32]);
    lemma_ranges_pick_entries(map, reclaimable_types());
}

/// The ranges, in map order, of the entries of `map` of a type that `wanted` accepts.
fn ranges_where(map: &[MemoryDescriptor], types: Ghost<Set<u32>>, reclaimable: bool) -> (r: Vec<(u64, u64)>)
    requires
        forall|i: int| 0 <= i < map@.len() && types@.contains(#[trigger] map@[i].ty.0) ==> descriptor_fits(map@[i]),
        types@ == (if reclaimable { reclaimable_types() } else { free_types() }),
    ensures
        r@ == ranges_of_types(map@, types@),
{
    let mut r: Vec<(u64, u64)> = Vec::new();
    let mut i: usize = 0;
    while i < map.len()
        invariant
            0 <= i <= map@.len(),
            types@ == (if reclaimable { reclaimable_types() } else { free_types() }),
            forall|k: int| 0 <= k < map@.len() && types@.contains(#[trigger] map@[k].ty.0) ==> descriptor_fits(map@[k]),
            r@ == ranges_of_types(map@.subrange(0, i as int), types@),
        decreases map@.len() - i,
    {
        let d = map[i];
        let t: u32 = d.ty.0;
        let wanted: bool = if reclaimable {
            t == BOOT_SERVICES_CODE || t == BOOT_SERVICES_DATA || t == LOADER_CODE || t == LOADER_DATA
        } else {
            t == CONVENTIONAL_MEMORY
        };
        proof {
            assert(map@.subrange(0, i + 1).drop_last() =~= map@.subrange(0, i as int));
            assert(wanted == types@.contains(t));
        }
        if wanted {
            proof {
                assert(descriptor_fits(map@[i as int]));
            }
            r.push((d.physical_start, d.physical_start + d.page_count * PAGE_SIZE));
        }
        i = i + 1;
    }
    proof {
        assert(map@.subrange(0, map@.len() as int) =~= map@);
    }
    r
}

/// The free memory once boot services are left: the range of each conventional-memory
/// entry of `map`, in map order.
pub fn free_memory(map: &[MemoryDescriptor]) -> (r: Vec<(u64, u64)>)
    requires
        forall|i: int| 0 <= i < map@.len() && free_types().contains(#[trigger] map@[i].ty.0) ==> descriptor_fits(map@[i]),
    ensures
        r@ == ranges_of_types(map@, free_types()),
{
    ranges_where(map, Ghost(free_types()), false)
}

/// The sum of the sizes of `ranges`.
pub open spec fn total_size(ranges: Seq<(u64, u64)>) -> int
    decreases ranges.len(),
{
    if ranges.len() == 0 {
        0
    } else {
        total_size(ranges.drop_last()) + (ranges.last().1 - ranges.last().0)
    }
}

/// Each range ends at or after its start.
pub open spec fn well_ordered(ranges: Seq<(u64, u64)>) -> bool {
    forall|i: int| 0 <= i < ranges.len() ==> (#[trigger] ranges[i]).0 <= ranges[i].1
}

proof fn lemma_total_size_nonneg(ranges: Seq<(u64, u64)>)
    requires
        well_ordered(ranges),
    ensures
        0 <= total_size(ranges),
    decreases ranges.len(),
{
    if ranges.len() > 0 {
        let rest = ranges.drop_last();
        assert(well_ordered(rest)) by {
            assert forall|i: int| 0 <= i < rest.len() implies (#[trigger] rest[i]).0 <= rest[i].1 by {
                assert(rest[i] == ranges[i]);
            }
        }
        lemma_total_size_nonneg(rest);
        assert(ranges.last() == ranges[ranges.len() - 1]);
    }
}

proof fn lemma_total_size_prefix(ranges: Seq<(u64, u64)>, i: int)
    requires
        well_ordered(ranges),
        0 <= i <= ranges.len(),
    ensures
        0 <= total_size(ranges.subrange(0, i)) <= total_size(ranges),
    decreases ranges.len() - i,
{
    let p = ranges.subrange(0, i);
    assert(well_ordered(p)) by {
        assert forall|k: int| 0 <= k < p.len() implies (#[trigger] p[k]).0 <= p[k].1 by {
            assert(p[k] == ranges[k]);
        }
    }
    lemma_total_size_nonneg(p);
    if i < ranges.len() {
        lemma_total_size_prefix(ranges, i + 1);
        assert(ranges.subrange(0, i + 1).drop_last() =~= p);
        assert(ranges.subrange(0, i + 1).last() == ranges[i]);
    } else {
        assert(p =~= ranges);
    }
}

/// The number of bytes in `ranges`.
pub fn total_memory(ranges: &[(u64, u64)]) -> (r: u64)
    requires
        well_ordered(ranges@),
        total_size(ranges@) <= u64::MAX,
    ensures
        r == total_size(ranges@),
{
    let mut sum: u64 = 0;
    let mut i: usize = 0;
    while i < ranges.len()
        invariant
            0 <= i <= ranges@.len(),
            well_ordered(ranges@),
            total_size(ranges@) <= u64::MAX,
            sum == total_size(ranges@.subrange(0, i as int)),
        decreases ranges@.len() - i,
    {
        proof {
            assert(ranges@.subrange(0, i + 1).drop_last() =~= ranges@.subrange(0, i as int));
            lemma_total_size_prefix(ranges@, i + 1);
        }
        let (start, end) = ranges[i];
        sum = sum + (end - start);
        i = i + 1;
    }
    proof {
        assert(ranges@.subrange(0, ranges@.len() as int) =~= ranges@);
    }
    sum
}

/// `ranges` with each range that starts where the one before it (after merging) ends
/// joined to it.
pub open spec fn merge_adjacent(ranges: Seq<(u64, u64)>) -> Seq<(u64, u64)>
    decreases ranges.len(),
{
    if ranges.len() == 0 {
        seq![]
    } else {
        let prev = merge_adjacent(ranges.drop_last());
        let entry = ranges.last();
        if prev.len() > 0 && prev.last().1 == entry.0 {
            prev.update(prev.len() - 1, (prev.last().0, entry.1))
        } else {
            prev.push(entry)
        }
    }
}

/// Joins each range of `ranges` that starts where the one before it ends to that one.
pub fn merge_ranges(ranges: &[(u64, u64)]) -> (r: Vec<(u64, u64)>)
    ensures
        r@ == merge_adjacent(ranges@),
{
    let mut list: Vec<(u64, u64)> = Vec::new();
    let mut i: usize = 0;
    while i < ranges.len()
        invariant
            0 <= i <= ranges@.len(),
            list@ == merge_adjacent(ranges@.subrange(0, i as int)),
        decreases ranges@.len() - i,
    {
        proof {
            assert(ranges@.subrange(0, i + 1).drop_last() =~= ranges@.subrange(0, i as int));
        }
        let entry = ranges[i];
        let n: usize = list.len();
        if n > 0 && list[n - 1].1 == entry.0 {
            let start: u64 = list[n - 1].0;
            list.set(n - 1, (start, entry.1));
        } else {
            list.push(entry);
        }
        i = i + 1;
    }
    proof {
        assert(ranges@.subrange(0, ranges@.len() as int) =~= ranges@);
    }
    list
}

/// The memory that can be reclaimed once the kernel runs: the ranges of the entries of
/// `map` that the boot services or the bootloader used, in map order, with touching
/// neighbours joined.
pub fn reclaimable_memory(map: &[MemoryDescriptor]) -> (r: Vec<(u64, u64)>)
    requires
        forall|i: int| 0 <= i < map@.len() && reclaimable_types().contains(#[trigger] map@[i].ty.0)
            ==> descriptor_fits(map@[i]),
    ensures
        r@ == merge_adjacent(ranges_of_types(map@, reclaimable_types())),
{
    let ranges = ranges_where(map, Ghost(reclaimable_types()), true);
    merge_ranges(ranges.as_slice())
}

/// Joining touching neighbours keeps the total size of well-ordered ranges.
pub proof fn lemma_merge_keeps_total_size(ranges: Seq<(u64, u64)>)
    requires
        well_ordered(ranges),
    ensures
        total_size(merge_adjacent(ranges)) == total_size(ranges),
        well_ordered(merge_adjacent(ranges)),
    decreases ranges.len(),
{
    if ranges.len() > 0 {
        let rest = ranges.drop_last();
        assert(well_ordered(rest)) by {
            assert forall|i: int| 0 <= i < rest.len() implies (#[trigger] rest[i]).0 <= rest[i].1 by {
                assert(rest[i] == ranges[i]);
            }
        }
        lemma_merge_keeps_total_size(rest);
        let prev = merge_adjacent(rest);
        let entry = ranges.last();
        assert(entry == ranges[ranges.len() - 1]);
        if prev.len() > 0 && prev.last().1 == entry.0 {
            let merged = prev.update(prev.len() - 1, (prev.last().0, entry.1));
            assert(merged.drop_last() =~= prev.drop_last());
            assert(prev.last() == prev[prev.len() - 1]);
            assert(prev[prev.len() - 1].0 <= prev[prev.len() - 1].1);
            assert forall|i: int| 0 <= i < merged.len() implies (#[trigger] merged[i]).0 <= merged[i].1 by {
                if i < merged.len() - 1 {
                    assert(merged[i] == prev[i]);
                }
            }
        } else {
            let pushed = prev.push(entry);
            assert(pushed.drop_last() =~= prev);
            assert forall|i: int| 0 <= i < pushed.len() implies (#[trigger] pushed[i]).0 <= pushed[i].1 by {
                if i < prev.len() {
                    assert(pushed[i] == prev[i]);
                }
            }
        }
    }
}

/// What the kernel is handed: the free memory as address ranges.
pub fn boot_info(free_memory: &[(u64, u64)]) -> (r: BootInfo)
    ensures
        r.available_mem@.len() == free_memory@.len(),
        forall|i: int| 0 <= i < free_memory@.len() ==> {
            &&& (#[trigger] r.available_mem@[i]).start.0 == free_memory@[i].0
            &&& r.available_mem@[i].end.0 == free_memory@[i].1
        },
{
    let mut available_mem: Vec<Range<PhysicalAddress>> = Vec::new();
    let mut i: usize = 0;
    while i < free_memory.len()
        invariant
            0 <= i <= free_memory@.len(),
            available_mem@.len() == i,
            forall|k: int| 0 <= k < i ==> {
                &&& (#[trigger] available_mem@[k]).start.0 == free_memory@[k].0
                &&& available_mem@[k].end.0 == free_memory@[k].1
            },
        decreases free_memory@.len() - i,
    {
        let (start, end) = free_memory[i];
        available_mem.push(PhysicalAddress(start)..PhysicalAddress(end));
        i = i + 1;
    }
    BootInfo { available_mem }
}

} // verus!
