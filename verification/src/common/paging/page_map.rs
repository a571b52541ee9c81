//! A page map: the four-level paging hierarchy of one address space. It maps virtual pages
//! to physical ones and takes the tables it needs from a page allocator.
//!
//! The tables are kept by their physical address. Each has a level, from 4 for the PML4
//! down to 1 for a page table, and 512 raw entries; a present entry of a table above level
//! 1 points at a table one level down.
use vstd::prelude::*;

use crate::bits::bit64;
use crate::common::addresses::{PhysicalAddress, VirtualAddress};
use crate::common::allocation::PageAllocator;
use super::page_entry::{PageEntry, PageOptions};
use super::page_map_level::{index_for, PageMapLevel, Pd, Pdpt, Pml4, Pt, ENTRY_COUNT};

verus! {

/// The present bit of a raw entry.
pub open spec fn present(e: u64) -> bool {
    bit64(e, 0)
}

/// The page-size bit of a raw entry: it maps a large page rather than a table.
pub open spec fn huge(e: u64) -> bool {
    bit64(e, 7)
}

/// The physical address that a raw entry points at.
pub open spec fn target(e: u64) -> u64 {
    e & !0xFFFu64
}

/// The position in `tables` of the table at address `a`; -1 when there is none.
pub open spec fn table_index(tables: Seq<(u64, u8)>, a: u64) -> int {
    if exists|i: int| 0 <= i < tables.len() && (#[trigger] tables[i]).0 == a {
        choose|i: int| 0 <= i < tables.len() && (#[trigger] tables[i]).0 == a
    } else {
        -1
    }
}

/// Entry `idx` of the table at address `a`.
pub open spec fn raw_entry(tables: Seq<(u64, u8)>, entries: Seq<u64>, a: u64, idx: int) -> u64 {
    entries[table_index(tables, a) * 512 + idx]
}

/// No two tables share an address.
pub open spec fn distinct_addresses(tables: Seq<(u64, u8)>) -> bool {
    forall|i: int, j: int| 0 <= i < tables.len() && 0 <= j < tables.len() && i != j
        ==> (#[trigger] tables[i]).0 != (#[trigger] tables[j]).0
}

/// No two present entries above level 1 point at the same table: the tables form a tree.
pub open spec fn single_parent(tables: Seq<(u64, u8)>, entries: Seq<u64>) -> bool {
    forall|p: int, q: int| 0 <= p < entries.len() && 0 <= q < entries.len() && p != q
        && tables[p / 512].1 >= 2 && tables[q / 512].1 >= 2
        && present(#[trigger] entries[p]) && present(#[trigger] entries[q])
        ==> target(entries[p]) != target(entries[q])
}

/// The tables of a page map with its PML4 at `pml4`: distinct addresses, 512 entries each,
/// levels 1 to 4, the PML4 at level 4, each present entry above level 1 a table entry
/// pointing at a table one level down, and no table pointed at twice.
pub open spec fn tables_wf(tables: Seq<(u64, u8)>, entries: Seq<u64>, pml4: u64) -> bool {
    &&& distinct_addresses(tables)
    &&& entries.len() == tables.len() * 512
    &&& forall|i: int| 0 <= i < tables.len() ==> 1 <= (#[trigger] tables[i]).1 <= 4
    &&& exists|k: int| 0 <= k < tables.len() && (#[trigger] tables[k]).0 == pml4 && tables[k].1 == 4
    &&& forall|p: int| 0 <= p < entries.len() && tables[p / 512].1 >= 2 && present(#[trigger] entries[p]) ==> {
        &&& !huge(entries[p])
        &&& exists|j: int| 0 <= j < tables.len() && (#[trigger] tables[j]).0 == target(entries[p])
            && tables[j].1 == tables[p / 512].1 - 1
    }
    &&& single_parent(tables, entries)
}

/// The raw page-table entry that the walk for `v` reaches, when the PML4, PDPT and page
/// directory entries on its way are present.
pub open spec fn pt_entry(tables: Seq<(u64, u8)>, entries: Seq<u64>, pml4: u64, v: u64) -> Option<u64> {
    let e4 = raw_entry(tables, entries, pml4, index_for(v, 4) as int);
    if !present(e4) {
        None
    } else {
        let e3 = raw_entry(tables, entries, target(e4), index_for(v, 3) as int);
        if !present(e3) {
            None
        } else {
            let e2 = raw_entry(tables, entries, target(e3), index_for(v, 2) as int);
            if !present(e2) {
                None
            } else {
                Some(raw_entry(tables, entries, target(e2), index_for(v, 1) as int))
            }
        }
    }
}

/// The number of tables missing on the walk for `v`: all three below the PML4 when its
/// entry is not present, the two lowest when the PDPT entry is not, the page table when the
/// page directory entry is not, none when the walk reaches a page-table entry.
pub open spec fn missing_tables(tables: Seq<(u64, u8)>, entries: Seq<u64>, pml4: u64, v: u64) -> nat {
    let e4 = raw_entry(tables, entries, pml4, index_for(v, 4) as int);
    if !present(e4) {
        3
    } else {
        let e3 = raw_entry(tables, entries, target(e4), index_for(v, 3) as int);
        if !present(e3) {
            2
        } else {
            let e2 = raw_entry(tables, entries, target(e3), index_for(v, 2) as int);
            if !present(e2) { 1 } else { 0 }
        }
    }
}

/// A page that the allocator gave and that cannot become a new table besides `tables`:
/// null, off a page boundary, or the address of a table already there.
pub open spec fn page_refused(a: u64, tables: Seq<(u64, u8)>) -> bool {
    a == 0 || a % 4096 != 0 || exists|i: int| 0 <= i < tables.len() && (#[trigger] tables[i]).0 == a
}

/// One-page allocations in a row: `states[i]` hands out `pages[i]` and becomes
/// `states[i + 1]`.
pub open spec fn page_allocations<A: PageAllocator>(states: Seq<A>, pages: Seq<u64>) -> bool {
    &&& states.len() == pages.len() + 1
    &&& forall|i: int| 0 <= i < pages.len() ==> states[i].alloc_outcome(&states[i + 1], 1, #[trigger] pages[i])
}

/// The tables `t` are the tables `t0` followed by one new table for each of the first
/// `made` pages of `pages`, in order.
pub open spec fn tables_added(t0: Seq<(u64, u8)>, t: Seq<(u64, u8)>, pages: Seq<u64>, made: int) -> bool {
    &&& 0 <= made <= pages.len()
    &&& t.len() == t0.len() + made
    &&& t.subrange(0, t0.len() as int) == t0
    &&& forall|i: int| 0 <= i < made ==> #[trigger] t[t0.len() + i].0 == pages[i]
}

/// What mapping did with the allocator, the walk having `missing` tables missing: one page
/// was asked for per missing table until one was refused. On success every missing table was
/// made from its page; on failure the last page was refused and the ones before it became
/// tables.
pub open spec fn map_allocations(t0: Seq<(u64, u8)>, tf: Seq<(u64, u8)>, pages: Seq<u64>, done: bool, missing: nat) -> bool {
    if done {
        pages.len() == missing && tables_added(t0, tf, pages, pages.len() as int)
    } else {
        &&& 0 < pages.len() <= missing
        &&& page_refused(pages.last(), tf)
        &&& tables_added(t0, tf, pages, pages.len() - 1)
    }
}

proof fn lemma_tables_added_step(t0: Seq<(u64, u8)>, tb: Seq<(u64, u8)>, ta: Seq<(u64, u8)>, pages: Seq<u64>, a: u64)
    requires
        tables_added(t0, tb, pages, pages.len() as int),
        ta.len() == tb.len() + 1,
        ta.subrange(0, tb.len() as int) == tb,
        ta[tb.len() as int].0 == a,
    ensures
        tables_added(t0, ta, pages.push(a), pages.len() + 1int),
{
    let p2 = pages.push(a);
    assert(ta.subrange(0, t0.len() as int) =~= t0) by {
        assert forall|k: int| 0 <= k < t0.len() implies #[trigger] ta.subrange(0, t0.len() as int)[k] == t0[k] by {
            assert(ta[k] == ta.subrange(0, tb.len() as int)[k]);
            assert(tb[k] == tb.subrange(0, t0.len() as int)[k]);
        }
    }
    assert forall|i: int| 0 <= i < pages.len() + 1 implies #[trigger] ta[t0.len() + i].0 == p2[i] by {
        if i < pages.len() {
            assert(ta[t0.len() + i] == ta.subrange(0, tb.len() as int)[t0.len() + i]);
            assert(tb[t0.len() + i].0 == pages[i]);
        }
    }
}

proof fn lemma_tables_added_refused(t0: Seq<(u64, u8)>, t: Seq<(u64, u8)>, pages: Seq<u64>, a: u64)
    requires
        tables_added(t0, t, pages, pages.len() as int),
    ensures
        tables_added(t0, t, pages.push(a), pages.len() as int),
{
    assert forall|i: int| 0 <= i < pages.len() implies #[trigger] t[t0.len() + i].0 == pages.push(a)[i] by {
        assert(t[t0.len() + i].0 == pages[i]);
    }
}

proof fn lemma_allocations_push<A: PageAllocator>(states: Seq<A>, pages: Seq<u64>, after: A, a: u64)
    requires
        page_allocations(states, pages),
        states.last().alloc_outcome(&after, 1, a),
    ensures
        page_allocations(states.push(after), pages.push(a)),
        states.push(after)[0] == states[0],
        states.push(after).last() == after,
{
    let s2 = states.push(after);
    let p2 = pages.push(a);
    assert forall|i: int| 0 <= i < p2.len() implies s2[i].alloc_outcome(&s2[i + 1], 1, #[trigger] p2[i]) by {
        if i < pages.len() {
            assert(s2[i] == states[i] && s2[i + 1] == states[i + 1] && p2[i] == pages[i]);
        }
    }
}

/// The physical page that `v` is mapped to: the address in the page-table entry of its walk,
/// when that entry is present.
pub open spec fn translate(tables: Seq<(u64, u8)>, entries: Seq<u64>, pml4: u64, v: u64) -> Option<u64> {
    match pt_entry(tables, entries, pml4, v) {
        Some(e) => if present(e) { Some(target(e)) } else { None },
        None => None,
    }
}

proof fn lemma_zero_entry()
    ensures
        !present(0),
        !huge(0),
{
    assert(0u64 & (1u64 << 0u64) == 0 && 0u64 & (1u64 << 7u64) == 0) by (bit_vector);
}

proof fn lemma_zero_target()
    ensures
        target(0) == 0,
{
    assert(0u64 & !0xFFFu64 == 0) by (bit_vector);
}

proof fn lemma_indices(v: u64)
    ensures
        index_for(v, 4) < 512,
        index_for(v, 3) < 512,
        index_for(v, 2) < 512,
        index_for(v, 1) < 512,
{
    assert((v >> 36u64) & 0x1FF < 512 && (v >> 27u64) & 0x1FF < 512 && (v >> 18u64) & 0x1FF < 512
        && (v >> 9u64) & 0x1FF < 512) by (bit_vector);
}

proof fn lemma_aligned_target(a: u64)
    requires
        a % 4096 == 0,
    ensures
        a & !0xFFFu64 == a,
{
    assert(a % 4096 == 0 ==> a & !0xFFFu64 == a) by (bit_vector);
}

proof fn lemma_table_index(tables: Seq<(u64, u8)>, i: int)
    requires
        distinct_addresses(tables),
        0 <= i < tables.len(),
    ensures
        table_index(tables, tables[i].0) == i,
{
    let a = tables[i].0;
    assert(exists|k: int| 0 <= k < tables.len() && (#[trigger] tables[k]).0 == a) by {
        assert(tables[i].0 == a);
    }
    let k = table_index(tables, a);
    assert(0 <= k < tables.len() && tables[k].0 == a);
}

proof fn lemma_position(t: int, idx: int, n: int)
    requires
        0 <= t < n,
        0 <= idx < 512,
    ensures
        0 <= t * 512 + idx < n * 512,
        (t * 512 + idx) / 512 == t,
{
    assert(0 <= t * 512 + idx < n * 512) by (nonlinear_arith)
        requires 0 <= t < n, 0 <= idx < 512;
    vstd::arithmetic::div_mod::lemma_fundamental_div_mod_converse(t * 512 + idx, 512, t, idx);
}

proof fn lemma_positions_differ(t1: int, i1: int, t2: int, i2: int)
    requires
        0 <= i1 < 512,
        0 <= i2 < 512,
        t1 != t2,
    ensures
        t1 * 512 + i1 != t2 * 512 + i2,
{
    assert(t1 * 512 + i1 != t2 * 512 + i2) by (nonlinear_arith)
        requires 0 <= i1 < 512, 0 <= i2 < 512, t1 != t2;
}

proof fn lemma_target_index(t: Seq<(u64, u8)>, e: Seq<u64>, pml4: u64, p: int)
    requires
        tables_wf(t, e, pml4),
        0 <= p < e.len(),
        t[p / 512].1 >= 2,
        present(e[p]),
    ensures
        0 <= table_index(t, target(e[p])) < t.len(),
        t[table_index(t, target(e[p]))].0 == target(e[p]),
        t[table_index(t, target(e[p]))].1 == t[p / 512].1 - 1,
{
    let j = choose|j: int| 0 <= j < t.len() && (#[trigger] t[j]).0 == target(e[p]) && t[j].1 == t[p / 512].1 - 1;
    lemma_table_index(t, j);
}

proof fn lemma_prefix_index(t0: Seq<(u64, u8)>, tf: Seq<(u64, u8)>, j: int)
    requires
        distinct_addresses(tf),
        t0.len() <= tf.len(),
        tf.subrange(0, t0.len() as int) == t0,
        0 <= j < t0.len(),
    ensures
        tf[j] == t0[j],
        table_index(tf, t0[j].0) == j,
        table_index(t0, t0[j].0) == j,
{
    assert(tf[j] == tf.subrange(0, t0.len() as int)[j]);
    lemma_table_index(tf, j);
    assert(distinct_addresses(t0)) by {
        assert forall|a: int, b: int| 0 <= a < t0.len() && 0 <= b < t0.len() && a != b
            implies (#[trigger] t0[a]).0 != (#[trigger] t0[b]).0 by {
            assert(tf[a] == tf.subrange(0, t0.len() as int)[a]);
            assert(tf[b] == tf.subrange(0, t0.len() as int)[b]);
        }
    }
    lemma_table_index(t0, j);
}

/// What following or creating the child of entry `index` of table `parent` does: the
/// entry leads to table `c` one level down, which is new exactly when the entry was not
/// present; nothing else changes but the entry and the new table's empty entries.
pub open spec fn child_step(
    t: Seq<(u64, u8)>, e: Seq<u64>, tn: Seq<(u64, u8)>, en: Seq<u64>, pml4: u64, parent: int, index: int, c: int,
) -> bool {
    let p = parent * 512 + index;
    &&& tables_wf(t, e, pml4)
    &&& tables_wf(tn, en, pml4)
    &&& t.len() <= tn.len()
    &&& tn.subrange(0, t.len() as int) == t
    &&& 0 <= parent < t.len()
    &&& 0 <= index < 512
    &&& 0 <= c < tn.len()
    &&& tn[c].1 == t[parent].1 - 1
    &&& present(en[p]) && target(en[p]) == tn[c].0
    &&& forall|q: int| 0 <= q < e.len() && q != p ==> #[trigger] en[q] == e[q]
    &&& forall|q: int| e.len() <= q < en.len() ==> #[trigger] en[q] == 0
    &&& (c < t.len() <==> present(e[p]))
    &&& (c < t.len() ==> tn == t && en == e)
}

proof fn lemma_compose_steps(
    t0: Seq<(u64, u8)>, e0: Seq<u64>, t1: Seq<(u64, u8)>, e1: Seq<u64>, t2: Seq<(u64, u8)>, e2: Seq<u64>,
    t3: Seq<(u64, u8)>, e3: Seq<u64>, ef: Seq<u64>, pml4: u64,
    r: int, c3: int, c2: int, c1: int, i4: int, i3: int, i2: int, i1: int,
)
    requires
        child_step(t0, e0, t1, e1, pml4, r, i4, c3),
        child_step(t1, e1, t2, e2, pml4, c3, i3, c2),
        child_step(t2, e2, t3, e3, pml4, c2, i2, c1),
        t0[r].0 == pml4,
        t0[r].1 == 4,
        0 <= i1 < 512,
        tables_wf(t3, ef, pml4),
        ef.len() == e3.len(),
        forall|q: int| 0 <= q < e3.len() && q != c1 * 512 + i1 ==> #[trigger] ef[q] == e3[q],
    ensures
        map_step(t0, e0, t3, ef, pml4, r, c3, c2, c1, i4, i3, i2, i1),
        c1 < t0.len() ==> e3[c1 * 512 + i1] == e0[c1 * 512 + i1],
        c1 >= t0.len() ==> e3[c1 * 512 + i1] == 0,
{
    let n = t0.len() as int;
    let p4 = r * 512 + i4;
    let p3 = c3 * 512 + i3;
    let p2 = c2 * 512 + i2;
    let p1 = c1 * 512 + i1;
    assert(t3.subrange(0, n) =~= t0) by {
        assert(t3.subrange(0, t2.len() as int) == t2);
        assert(t2.subrange(0, t1.len() as int) == t1);
        assert(t1.subrange(0, n) == t0);
        assert forall|k: int| 0 <= k < n implies #[trigger] t3.subrange(0, n)[k] == t0[k] by {
            assert(t3[k] == t3.subrange(0, t2.len() as int)[k]);
            assert(t2[k] == t2.subrange(0, t1.len() as int)[k]);
            assert(t1[k] == t1.subrange(0, n)[k]);
        }
    }
    assert(t3.subrange(0, t1.len() as int) =~= t1) by {
        assert forall|k: int| 0 <= k < t1.len() implies #[trigger] t3.subrange(0, t1.len() as int)[k] == t1[k] by {
            assert(t3[k] == t3.subrange(0, t2.len() as int)[k]);
            assert(t2[k] == t2.subrange(0, t1.len() as int)[k]);
        }
    }
    lemma_prefix_index(t1, t3, c3);
    lemma_prefix_index(t2, t3, c2);
    assert(t1[r] == t0[r]) by {
        assert(t1[r] == t1.subrange(0, n)[r]);
    }
    lemma_position(r, i4, n);
    lemma_position(c3, i3, t1.len() as int);
    lemma_position(c2, i2, t2.len() as int);
    lemma_position(c1, i1, t3.len() as int);
    assert(t3[r] == t0[r]) by {
        assert(t3[r] == t3.subrange(0, n)[r]);
    }
    lemma_positions_differ(r, i4, c3, i3);
    lemma_positions_differ(r, i4, c2, i2);
    lemma_positions_differ(r, i4, c1, i1);
    lemma_positions_differ(c3, i3, c2, i2);
    lemma_positions_differ(c3, i3, c1, i1);
    lemma_positions_differ(c2, i2, c1, i1);
    lemma_zero_entry();
    // The three entries on the walk keep what the steps wrote.
    assert(ef[p4] == e3[p4] && e3[p4] == e2[p4] && e2[p4] == e1[p4]);
    assert(ef[p3] == e3[p3] && e3[p3] == e2[p3]);
    assert(ef[p2] == e3[p2]);
    // Whether each table on the walk is new.
    if c3 < n {
        assert(t1 == t0 && e1 == e0);
        assert(p3 < e0.len());
        if present(e0[p3]) {
            assert(c2 < t1.len());
        } else {
            assert(!present(e1[p3]));
        }
    } else {
        lemma_new_position(c3, i3, n);
        assert(e1[p3] == 0);
        assert(!(c2 < t1.len()));
    }
    if c2 < n {
        assert(c2 < t1.len());
        assert(t2 == t1 && e2 == e1);
        if present(e1[p2]) {
            assert(c1 < t2.len());
        }
    } else if c2 < t1.len() {
    } else {
        lemma_new_position(c2, i2, t1.len() as int);
        assert(e2[p2] == 0);
        assert(!(c1 < t2.len()));
    }
    if c1 < n {
        assert(c1 < t2.len());
        assert(e1[p1] == e0[p1]);
        assert(e2[p1] == e1[p1]);
        assert(e3[p1] == e2[p1]);
    } else if c1 < t2.len() {
        lemma_new_position(c1, i1, n);
        lemma_position(c1, i1, t2.len() as int);
        if c1 < t1.len() {
            assert(e1[p1] == 0);
            assert(e2[p1] == e1[p1]);
        } else {
            assert(e2[p1] == 0);
        }
        assert(e3[p1] == e2[p1]);
    } else {
        lemma_new_position(c1, i1, t2.len() as int);
        assert(e3[p1] == 0);
    }
    assert forall|p: int| 0 <= p < e0.len() && p != p4 && p != p3 && p != p2 && p != p1 implies #[trigger] ef[p] == e0[p] by {
        assert(e1[p] == e0[p]);
        assert(e2[p] == e1[p]);
        assert(e3[p] == e2[p]);
    }
    assert forall|p: int| e0.len() <= p < ef.len() && p != p3 && p != p2 && p != p1 implies #[trigger] ef[p] == 0 by {
        assert(ef[p] == e3[p]);
        if p < e1.len() {
            assert(e1[p] == 0);
            assert(e2[p] == e1[p]);
            assert(e3[p] == e2[p]);
        } else if p < e2.len() {
            assert(e2[p] == 0);
            assert(e3[p] == e2[p]);
        } else {
            assert(e3[p] == 0);
        }
    }
}

/// The state change that `map` makes: the PT entry at `p1` of the walk `r, c3, c2, c1` is
/// written, and the entries on the way to it that were missing point at new empty tables.
pub open spec fn map_step(
    t0: Seq<(u64, u8)>, e0: Seq<u64>, tf: Seq<(u64, u8)>, ef: Seq<u64>, pml4: u64,
    r: int, c3: int, c2: int, c1: int, i4: int, i3: int, i2: int, i1: int,
) -> bool {
    let p4 = r * 512 + i4;
    let p3 = c3 * 512 + i3;
    let p2 = c2 * 512 + i2;
    let p1 = c1 * 512 + i1;
    &&& tables_wf(t0, e0, pml4)
    &&& tables_wf(tf, ef, pml4)
    &&& t0.len() <= tf.len()
    &&& tf.subrange(0, t0.len() as int) == t0
    &&& 0 <= i4 < 512 && 0 <= i3 < 512 && 0 <= i2 < 512 && 0 <= i1 < 512
    &&& 0 <= r < t0.len() && t0[r].0 == pml4 && t0[r].1 == 4
    &&& 0 <= c3 < tf.len() && tf[c3].1 == 3
    &&& 0 <= c2 < tf.len() && tf[c2].1 == 2
    &&& 0 <= c1 < tf.len() && tf[c1].1 == 1
    &&& present(ef[p4]) && target(ef[p4]) == tf[c3].0
    &&& present(ef[p3]) && target(ef[p3]) == tf[c2].0
    &&& present(ef[p2]) && target(ef[p2]) == tf[c1].0
    &&& forall|p: int| 0 <= p < e0.len() && p != p4 && p != p3 && p != p2 && p != p1 ==> #[trigger] ef[p] == e0[p]
    &&& forall|p: int| e0.len() <= p < ef.len() && p != p3 && p != p2 && p != p1 ==> #[trigger] ef[p] == 0
    &&& (c3 < t0.len() <==> present(e0[p4]))
    &&& (c3 < t0.len() ==> ef[p4] == e0[p4])
    &&& (c2 < t0.len() <==> (c3 < t0.len() && present(e0[p3])))
    &&& (c2 < t0.len() ==> ef[p3] == e0[p3])
    &&& (c1 < t0.len() <==> (c2 < t0.len() && present(e0[p2])))
    &&& (c1 < t0.len() ==> ef[p2] == e0[p2])
}

proof fn lemma_write_pt_entry(t: Seq<(u64, u8)>, e: Seq<u64>, pml4: u64, c1: int, i1: int, x: u64)
    requires
        tables_wf(t, e, pml4),
        0 <= c1 < t.len(),
        t[c1].1 == 1,
        0 <= i1 < 512,
    ensures
        tables_wf(t, e.update(c1 * 512 + i1, x), pml4),
{
    let pos = c1 * 512 + i1;
    let ef = e.update(pos, x);
    lemma_position(c1, i1, t.len() as int);
    assert forall|p: int| 0 <= p < ef.len() && t[p / 512].1 >= 2 && present(#[trigger] ef[p]) implies {
        &&& !huge(ef[p])
        &&& exists|j: int| 0 <= j < t.len() && (#[trigger] t[j]).0 == target(ef[p]) && t[j].1 == t[p / 512].1 - 1
    } by {
        assert(p != pos);
        assert(ef[p] == e[p]);
    }
    assert forall|p: int, q: int| 0 <= p < ef.len() && 0 <= q < ef.len() && p != q
        && t[p / 512].1 >= 2 && t[q / 512].1 >= 2
        && present(#[trigger] ef[p]) && present(#[trigger] ef[q])
        implies target(ef[p]) != target(ef[q]) by {
        assert(p != pos && q != pos);
        assert(ef[p] == e[p] && ef[q] == e[q]);
    }
    let k = choose|k: int| 0 <= k < t.len() && (#[trigger] t[k]).0 == pml4 && t[k].1 == 4;
}

proof fn lemma_map_walk(
    t0: Seq<(u64, u8)>, e0: Seq<u64>, tf: Seq<(u64, u8)>, ef: Seq<u64>, pml4: u64,
    r: int, c3: int, c2: int, c1: int, i4: int, i3: int, i2: int, i1: int, v: u64,
)
    requires
        map_step(t0, e0, tf, ef, pml4, r, c3, c2, c1, i4, i3, i2, i1),
        (index_for(v, 4) as int, index_for(v, 3) as int, index_for(v, 2) as int, index_for(v, 1) as int)
            == (i4, i3, i2, i1),
    ensures
        pt_entry(tf, ef, pml4, v) == Some(ef[c1 * 512 + i1]),
        pt_entry(t0, e0, pml4, v) == (if c1 < t0.len() { Some(e0[c1 * 512 + i1]) } else { None::<u64> }),
{
    let n = t0.len() as int;
    lemma_prefix_index(t0, tf, r);
    lemma_table_index(tf, c3);
    lemma_table_index(tf, c2);
    lemma_table_index(tf, c1);
    if c3 < n {
        lemma_prefix_index(t0, tf, c3);
        if c2 < n {
            lemma_prefix_index(t0, tf, c2);
            if c1 < n {
                lemma_prefix_index(t0, tf, c1);
            }
        }
    }
}

/// The end of a walk from the page table at `a`: the page that entry `a1` maps.
pub open spec fn tail1(t: Seq<(u64, u8)>, e: Seq<u64>, a: u64, a1: int) -> Option<u64> {
    let e1 = raw_entry(t, e, a, a1);
    if present(e1) { Some(target(e1)) } else { None }
}

/// A walk from the page directory at `a`.
pub open spec fn tail2(t: Seq<(u64, u8)>, e: Seq<u64>, a: u64, a2: int, a1: int) -> Option<u64> {
    let e2 = raw_entry(t, e, a, a2);
    if present(e2) { tail1(t, e, target(e2), a1) } else { None }
}

/// A walk from the page directory pointer table at `a`.
pub open spec fn tail3(t: Seq<(u64, u8)>, e: Seq<u64>, a: u64, a3: int, a2: int, a1: int) -> Option<u64> {
    let e3 = raw_entry(t, e, a, a3);
    if present(e3) { tail2(t, e, target(e3), a2, a1) } else { None }
}

proof fn lemma_new_position(t: int, idx: int, n: int)
    requires
        t >= n >= 0,
        0 <= idx < 512,
    ensures
        t * 512 + idx >= n * 512,
{
    assert(t * 512 + idx >= n * 512) by (nonlinear_arith)
        requires t >= n >= 0, 0 <= idx < 512;
}

proof fn lemma_keep_tail1(
    t0: Seq<(u64, u8)>, e0: Seq<u64>, tf: Seq<(u64, u8)>, ef: Seq<u64>, pml4: u64,
    r: int, c3: int, c2: int, c1: int, i4: int, i3: int, i2: int, i1: int, d1: int, a1: int,
)
    requires
        map_step(t0, e0, tf, ef, pml4, r, c3, c2, c1, i4, i3, i2, i1),
        0 <= d1 < t0.len(),
        t0[d1].1 == 1,
        d1 != c1,
        0 <= a1 < 512,
    ensures
        tail1(tf, ef, t0[d1].0, a1) == tail1(t0, e0, t0[d1].0, a1),
{
    lemma_prefix_index(t0, tf, d1);
    lemma_position(d1, a1, t0.len() as int);
    let q = d1 * 512 + a1;
    lemma_prefix_index(t0, tf, r);
    assert(tf[r].1 == 4);
    lemma_positions_differ(d1, a1, r, i4);
    lemma_positions_differ(d1, a1, c3, i3);
    lemma_positions_differ(d1, a1, c2, i2);
    lemma_positions_differ(d1, a1, c1, i1);
    assert(ef[q] == e0[q]);
}

proof fn lemma_keep_tail2(
    t0: Seq<(u64, u8)>, e0: Seq<u64>, tf: Seq<(u64, u8)>, ef: Seq<u64>, pml4: u64,
    r: int, c3: int, c2: int, c1: int, i4: int, i3: int, i2: int, i1: int, d2: int, a2: int, a1: int,
)
    requires
        map_step(t0, e0, tf, ef, pml4, r, c3, c2, c1, i4, i3, i2, i1),
        0 <= d2 < t0.len(),
        t0[d2].1 == 2,
        d2 != c2,
        0 <= a2 < 512,
        0 <= a1 < 512,
    ensures
        tail2(tf, ef, t0[d2].0, a2, a1) == tail2(t0, e0, t0[d2].0, a2, a1),
{
    lemma_prefix_index(t0, tf, d2);
    lemma_position(d2, a2, t0.len() as int);
    let q = d2 * 512 + a2;
    lemma_prefix_index(t0, tf, r);
    lemma_positions_differ(d2, a2, r, i4);
    lemma_positions_differ(d2, a2, c3, i3);
    lemma_positions_differ(d2, a2, c2, i2);
    lemma_positions_differ(d2, a2, c1, i1);
    assert(ef[q] == e0[q]);
    if present(e0[q]) {
        assert(q / 512 == d2);
        lemma_target_index(t0, e0, pml4, q);
        let d1 = table_index(t0, target(e0[q]));
        if c1 < t0.len() {
            let p2 = c2 * 512 + i2;
            lemma_position(c2, i2, t0.len() as int);
            assert(p2 / 512 == c2);
            lemma_prefix_index(t0, tf, c2);
            lemma_prefix_index(t0, tf, c1);
            assert(target(e0[p2]) == t0[c1].0);
            assert(q != p2);
            assert(target(e0[q]) != target(e0[p2]));
        }
        lemma_keep_tail1(t0, e0, tf, ef, pml4, r, c3, c2, c1, i4, i3, i2, i1, d1, a1);
    }
}

proof fn lemma_keep_tail3(
    t0: Seq<(u64, u8)>, e0: Seq<u64>, tf: Seq<(u64, u8)>, ef: Seq<u64>, pml4: u64,
    r: int, c3: int, c2: int, c1: int, i4: int, i3: int, i2: int, i1: int, d3: int, a3: int, a2: int, a1: int,
)
    requires
        map_step(t0, e0, tf, ef, pml4, r, c3, c2, c1, i4, i3, i2, i1),
        0 <= d3 < t0.len(),
        t0[d3].1 == 3,
        d3 != c3,
        0 <= a3 < 512,
        0 <= a2 < 512,
        0 <= a1 < 512,
    ensures
        tail3(tf, ef, t0[d3].0, a3, a2, a1) == tail3(t0, e0, t0[d3].0, a3, a2, a1),
{
    lemma_prefix_index(t0, tf, d3);
    lemma_position(d3, a3, t0.len() as int);
    let q = d3 * 512 + a3;
    lemma_prefix_index(t0, tf, r);
    lemma_positions_differ(d3, a3, r, i4);
    lemma_positions_differ(d3, a3, c3, i3);
    lemma_positions_differ(d3, a3, c2, i2);
    lemma_positions_differ(d3, a3, c1, i1);
    assert(ef[q] == e0[q]);
    if present(e0[q]) {
        assert(q / 512 == d3);
        lemma_target_index(t0, e0, pml4, q);
        let d2 = table_index(t0, target(e0[q]));
        if c2 < t0.len() {
            let p3 = c3 * 512 + i3;
            lemma_position(c3, i3, t0.len() as int);
            assert(p3 / 512 == c3);
            lemma_prefix_index(t0, tf, c3);
            lemma_prefix_index(t0, tf, c2);
            assert(target(e0[p3]) == t0[c2].0);
            assert(q != p3);
            assert(target(e0[q]) != target(e0[p3]));
        }
        lemma_keep_tail2(t0, e0, tf, ef, pml4, r, c3, c2, c1, i4, i3, i2, i1, d2, a2, a1);
    }
}

/// Mapping one page changes the translation of no page whose walk takes other indices: the
/// entries it writes are the page table entry of the mapped page and entries that were not
/// present, which now lead into new, otherwise empty tables.
pub proof fn lemma_map_keeps_other_pages(
    t0: Seq<(u64, u8)>, e0: Seq<u64>, tf: Seq<(u64, u8)>, ef: Seq<u64>, pml4: u64,
    r: int, c3: int, c2: int, c1: int, i4: int, i3: int, i2: int, i1: int, v: u64,
)
    requires
        map_step(t0, e0, tf, ef, pml4, r, c3, c2, c1, i4, i3, i2, i1),
        (index_for(v, 4) as int, index_for(v, 3) as int, index_for(v, 2) as int, index_for(v, 1) as int)
            != (i4, i3, i2, i1),
    ensures
        translate(tf, ef, pml4, v) == translate(t0, e0, pml4, v),
{
    lemma_indices(v);
    lemma_zero_entry();
    let a4 = index_for(v, 4) as int;
    let a3 = index_for(v, 3) as int;
    let a2 = index_for(v, 2) as int;
    let a1 = index_for(v, 1) as int;
    let n = t0.len() as int;
    lemma_prefix_index(t0, tf, r);
    let p4 = r * 512 + i4;
    let p3 = c3 * 512 + i3;
    let p2 = c2 * 512 + i2;
    let p1 = c1 * 512 + i1;
    lemma_position(r, i4, n);
    lemma_position(r, a4, n);
    lemma_table_index(tf, c3);
    lemma_table_index(tf, c2);
    lemma_table_index(tf, c1);
    assert(translate(tf, ef, pml4, v) == (if present(ef[r * 512 + a4]) { tail3(tf, ef, target(ef[r * 512 + a4]), a3, a2, a1) } else { None }));
    assert(translate(t0, e0, pml4, v) == (if present(e0[r * 512 + a4]) { tail3(t0, e0, target(e0[r * 512 + a4]), a3, a2, a1) } else { None }));
    let q4 = r * 512 + a4;
    if a4 != i4 {
        lemma_positions_differ(r, a4, c3, i3);
        lemma_positions_differ(r, a4, c2, i2);
        lemma_positions_differ(r, a4, c1, i1);
        assert(ef[q4] == e0[q4]);
        if present(e0[q4]) {
            assert(q4 / 512 == r);
            lemma_target_index(t0, e0, pml4, q4);
            let d3 = table_index(t0, target(e0[q4]));
            if c3 < n {
                assert(p4 / 512 == r);
                lemma_prefix_index(t0, tf, c3);
                assert(target(e0[q4]) != target(e0[p4]));
            }
            lemma_keep_tail3(t0, e0, tf, ef, pml4, r, c3, c2, c1, i4, i3, i2, i1, d3, a3, a2, a1);
        }
    } else if c3 < n {
        // The PML4 entry was followed: the walk reaches the same directory pointer table.
        lemma_prefix_index(t0, tf, c3);
        lemma_position(c3, a3, n);
        lemma_position(c3, i3, n);
        let q3 = c3 * 512 + a3;
        assert(tail3(tf, ef, tf[c3].0, a3, a2, a1) == (if present(ef[q3]) { tail2(tf, ef, target(ef[q3]), a2, a1) } else { None }));
        assert(tail3(t0, e0, t0[c3].0, a3, a2, a1) == (if present(e0[q3]) { tail2(t0, e0, target(e0[q3]), a2, a1) } else { None }));
        if a3 != i3 {
            lemma_positions_differ(c3, a3, r, i4);
            lemma_positions_differ(c3, a3, c2, i2);
            lemma_positions_differ(c3, a3, c1, i1);
            assert(ef[q3] == e0[q3]);
            if present(e0[q3]) {
                assert(q3 / 512 == c3);
                lemma_target_index(t0, e0, pml4, q3);
                let d2 = table_index(t0, target(e0[q3]));
                if c2 < n {
                    assert(p3 / 512 == c3);
                    lemma_prefix_index(t0, tf, c2);
                    assert(target(e0[q3]) != target(e0[p3]));
                }
                lemma_keep_tail2(t0, e0, tf, ef, pml4, r, c3, c2, c1, i4, i3, i2, i1, d2, a2, a1);
            }
        } else if c2 < n {
            lemma_prefix_index(t0, tf, c2);
            lemma_position(c2, a2, n);
            lemma_position(c2, i2, n);
            let q2 = c2 * 512 + a2;
            assert(tail2(tf, ef, tf[c2].0, a2, a1) == (if present(ef[q2]) { tail1(tf, ef, target(ef[q2]), a1) } else { None }));
            assert(tail2(t0, e0, t0[c2].0, a2, a1) == (if present(e0[q2]) { tail1(t0, e0, target(e0[q2]), a1) } else { None }));
            if a2 != i2 {
                lemma_positions_differ(c2, a2, r, i4);
                lemma_positions_differ(c2, a2, c3, i3);
                lemma_positions_differ(c2, a2, c1, i1);
                assert(ef[q2] == e0[q2]);
                if present(e0[q2]) {
                    assert(q2 / 512 == c2);
                    lemma_target_index(t0, e0, pml4, q2);
                    let d1 = table_index(t0, target(e0[q2]));
                    if c1 < n {
                        assert(p2 / 512 == c2);
                        lemma_prefix_index(t0, tf, c1);
                        assert(target(e0[q2]) != target(e0[p2]));
                    }
                    lemma_keep_tail1(t0, e0, tf, ef, pml4, r, c3, c2, c1, i4, i3, i2, i1, d1, a1);
                }
            } else if c1 < n {
                lemma_prefix_index(t0, tf, c1);
                lemma_position(c1, a1, n);
                let q1 = c1 * 512 + a1;
                assert(a1 != i1);
                lemma_positions_differ(c1, a1, r, i4);
                lemma_positions_differ(c1, a1, c3, i3);
                lemma_positions_differ(c1, a1, c2, i2);
                assert(ef[q1] == e0[q1]);
            } else {
                // The page table is new: the entry of `v` in it is empty.
                lemma_new_position(c1, a1, n);
                lemma_position(c1, a1, tf.len() as int);
                assert(a1 != i1);
                assert(ef[c1 * 512 + a1] == 0);
            }
        } else {
            // The page directory is new.
            lemma_new_position(c2, a2, n);
            lemma_position(c2, a2, tf.len() as int);
            lemma_position(c2, i2, tf.len() as int);
            if a2 != i2 {
                lemma_positions_differ(c2, a2, c1, i1);
                assert(ef[c2 * 512 + a2] == 0);
            } else {
                lemma_new_position(c1, a1, n);
                lemma_position(c1, a1, tf.len() as int);
                assert(a1 != i1);
                assert(ef[c1 * 512 + a1] == 0);
            }
        }
    } else {
        // The directory pointer table is new.
        lemma_new_position(c3, a3, n);
        lemma_position(c3, a3, tf.len() as int);
        if a3 != i3 {
            lemma_positions_differ(c3, a3, c2, i2);
            lemma_positions_differ(c3, a3, c1, i1);
            assert(ef[c3 * 512 + a3] == 0);
        } else {
            lemma_position(c2, a2, tf.len() as int);
            lemma_new_position(c2, a2, n);
            if a2 != i2 {
                lemma_positions_differ(c2, a2, c1, i1);
                assert(ef[c2 * 512 + a2] == 0);
            } else {
                lemma_new_position(c1, a1, n);
                lemma_position(c1, a1, tf.len() as int);
                assert(a1 != i1);
                assert(ef[c1 * 512 + a1] == 0);
            }
        }
    }
}

/// The tables on the walk for `v`: the PML4 at `r`, then `c3`, `c2` and the page table
/// `c1`, each reached through a present entry.
pub open spec fn walk_path(t: Seq<(u64, u8)>, e: Seq<u64>, pml4: u64, v: u64, r: int, c3: int, c2: int, c1: int) -> bool {
    &&& tables_wf(t, e, pml4)
    &&& 0 <= r < t.len() && t[r].0 == pml4 && t[r].1 == 4
    &&& 0 <= c3 < t.len() && 0 <= c2 < t.len() && 0 <= c1 < t.len()
    &&& present(e[r * 512 + index_for(v, 4) as int]) && target(e[r * 512 + index_for(v, 4) as int]) == t[c3].0
    &&& present(e[c3 * 512 + index_for(v, 3) as int]) && target(e[c3 * 512 + index_for(v, 3) as int]) == t[c2].0
    &&& present(e[c2 * 512 + index_for(v, 2) as int]) && target(e[c2 * 512 + index_for(v, 2) as int]) == t[c1].0
    &&& t[c3].1 == 3 && t[c2].1 == 2 && t[c1].1 == 1
}

/// Removing the page-table entry of `v` changes the translation of no page whose walk takes
/// other indices: no other walk reaches that entry, since every table has one parent.
pub proof fn lemma_unmap_keeps_other_pages(
    t: Seq<(u64, u8)>, e: Seq<u64>, pml4: u64, v: u64, r: int, c3: int, c2: int, c1: int, w: u64,
)
    requires
        walk_path(t, e, pml4, v, r, c3, c2, c1),
        (index_for(w, 4), index_for(w, 3), index_for(w, 2), index_for(w, 1))
            != (index_for(v, 4), index_for(v, 3), index_for(v, 2), index_for(v, 1)),
    ensures
        translate(t, e.update(c1 * 512 + index_for(v, 1) as int, 0), pml4, w) == translate(t, e, pml4, w),
{
    lemma_indices(v);
    lemma_indices(w);
    let n = t.len() as int;
    let ef = e.update(c1 * 512 + index_for(v, 1) as int, 0);
    let (i4, i3, i2, i1) = (index_for(v, 4) as int, index_for(v, 3) as int, index_for(v, 2) as int, index_for(v, 1) as int);
    let (a4, a3, a2, a1) = (index_for(w, 4) as int, index_for(w, 3) as int, index_for(w, 2) as int, index_for(w, 1) as int);
    let p1 = c1 * 512 + i1;
    lemma_table_index(t, r);
    lemma_table_index(t, c3);
    lemma_table_index(t, c2);
    lemma_table_index(t, c1);
    lemma_position(c1, i1, n);
    let q4 = r * 512 + a4;
    lemma_position(r, a4, n);
    lemma_positions_differ(r, a4, c1, i1);
    assert(ef[q4] == e[q4]);
    if present(e[q4]) {
        assert(q4 / 512 == r);
        lemma_target_index(t, e, pml4, q4);
        let d3 = table_index(t, target(e[q4]));
        let q3 = d3 * 512 + a3;
        lemma_position(d3, a3, n);
        lemma_positions_differ(d3, a3, c1, i1);
        assert(ef[q3] == e[q3]);
        if present(e[q3]) {
            assert(q3 / 512 == d3);
            lemma_target_index(t, e, pml4, q3);
            let d2 = table_index(t, target(e[q3]));
            let q2 = d2 * 512 + a2;
            lemma_position(d2, a2, n);
            lemma_positions_differ(d2, a2, c1, i1);
            assert(ef[q2] == e[q2]);
            if present(e[q2]) {
                assert(q2 / 512 == d2);
                lemma_target_index(t, e, pml4, q2);
                let d1 = table_index(t, target(e[q2]));
                let q1 = d1 * 512 + a1;
                lemma_position(d1, a1, n);
                if q1 == p1 {
                    // Then the walk of `w` went through the same entries as that of `v`.
                    if d1 != c1 {
                        lemma_positions_differ(d1, a1, c1, i1);
                    }
                    let p2 = c2 * 512 + i2;
                    lemma_position(c2, i2, n);
                    assert(p2 / 512 == c2);
                    assert(target(e[q2]) == target(e[p2]));
                    assert(q2 == p2);
                    if d2 != c2 {
                        lemma_positions_differ(d2, a2, c2, i2);
                    }
                    let p3 = c3 * 512 + i3;
                    lemma_position(c3, i3, n);
                    assert(p3 / 512 == c3);
                    assert(target(e[q3]) == target(e[p3]));
                    assert(q3 == p3);
                    if d3 != c3 {
                        lemma_positions_differ(d3, a3, c3, i3);
                    }
                    let p4 = r * 512 + i4;
                    lemma_position(r, i4, n);
                    assert(p4 / 512 == r);
                    assert(target(e[q4]) == target(e[p4]));
                    assert(q4 == p4);
                    assert(false);
                }
                assert(ef[q1] == e[q1]);
            }
        }
    }
}

/// The addresses that freeing the table at position `i`, of level `level`, hands back, in
/// order: what freeing the table under each present entry hands back, entry by entry, then
/// the table's own address.
pub open spec fn released(t: Seq<(u64, u8)>, e: Seq<u64>, i: int, level: nat) -> Seq<u64>
    decreases level, 513nat,
{
    if level <= 1 {
        seq![t[i].0]
    } else {
        released_under(t, e, i, level, 512) + seq![t[i].0]
    }
}

/// What freeing the tables under the first `k` entries of the table at position `i`, of
/// level `level`, hands back.
pub open spec fn released_under(t: Seq<(u64, u8)>, e: Seq<u64>, i: int, level: nat, k: nat) -> Seq<u64>
    decreases level, k,
{
    if k == 0 || level <= 1 {
        seq![]
    } else {
        let prev = released_under(t, e, i, level, (k - 1) as nat);
        let entry = e[i * 512 + k - 1];
        if present(entry) {
            prev + released(t, e, table_index(t, target(entry)), (level - 1) as nat)
        } else {
            prev
        }
    }
}

/// The allocator goes through `states` as it takes back the pages at `addrs`, one page
/// each, in order.
pub open spec fn dealloc_chain<A: PageAllocator>(states: Seq<A>, addrs: Seq<u64>) -> bool {
    &&& states.len() == addrs.len() + 1
    &&& forall|i: int| 0 <= i < addrs.len() ==> (#[trigger] states[i]).dealloc_outcome(&states[i + 1], addrs[i], 1)
}

/// Handing `addrs` back one page each, in order, takes the allocator from `before` to
/// `after`.
pub open spec fn deallocs<A: PageAllocator>(before: A, after: A, addrs: Seq<u64>) -> bool {
    exists|states: Seq<A>| #[trigger] dealloc_chain(states, addrs) && states[0] == before && states.last() == after
}

proof fn lemma_deallocs_none<A: PageAllocator>(a: A)
    ensures
        deallocs(a, a, Seq::<u64>::empty()),
{
    let states = seq![a];
    assert(dealloc_chain(states, Seq::<u64>::empty()));
}

proof fn lemma_deallocs_append<A: PageAllocator>(a0: A, a1: A, a2: A, s1: Seq<u64>, s2: Seq<u64>)
    requires
        deallocs(a0, a1, s1),
        deallocs(a1, a2, s2),
    ensures
        deallocs(a0, a2, s1 + s2),
{
    let st1 = choose|states: Seq<A>| #[trigger] dealloc_chain(states, s1) && states[0] == a0 && states.last() == a1;
    let st2 = choose|states: Seq<A>| #[trigger] dealloc_chain(states, s2) && states[0] == a1 && states.last() == a2;
    let st = st1 + st2.drop_first();
    let s = s1 + s2;
    assert(dealloc_chain(st, s)) by {
        assert forall|i: int| 0 <= i < s.len() implies (#[trigger] st[i]).dealloc_outcome(&st[i + 1], s[i], 1) by {
            if i < s1.len() {
                assert(st[i] == st1[i]);
                if i + 1 < st1.len() {
                    assert(st[i + 1] == st1[i + 1]);
                } else {
                    assert(st[i + 1] == st2[1]);
                }
                assert(s[i] == s1[i]);
            } else {
                let j = i - s1.len();
                assert(st[i] == st2[j]) by {
                    if j == 0 {
                        assert(st[i] == st1.last());
                    } else {
                        assert(st[i] == st2.drop_first()[j - 1]);
                    }
                }
                assert(st[i + 1] == st2[j + 1]);
                assert(s[i] == s2[j]);
            }
        }
    }
    if st2.len() > 1 {
        assert(st.last() == st2.last());
    } else {
        assert(st =~= st1);
    }
    assert(st[0] == a0);
}

proof fn lemma_deallocs_one<A: PageAllocator>(a0: A, a1: A, a2: A, s: Seq<u64>, x: u64)
    requires
        deallocs(a0, a1, s),
        a1.dealloc_outcome(&a2, x, 1),
    ensures
        deallocs(a0, a2, s.push(x)),
{
    let st1 = seq![a1, a2];
    assert(dealloc_chain(st1, seq![x]));
    lemma_deallocs_append(a0, a1, a2, s, seq![x]);
    assert(s + seq![x] =~= s.push(x));
}

/// A page map over the tables it owns, with the allocator they come from.
pub struct PageMap<A: PageAllocator> {
    pml4: u64,
    tables: Vec<(u64, u8)>,
    entries: Vec<u64>,
    page_allocator: A,
}

impl<A: PageAllocator> PageMap<A> {
    /// The address of the PML4.
    pub closed spec fn pml4_spec(&self) -> u64 {
        self.pml4
    }

    /// The allocator that the tables come from.
    pub closed spec fn allocator(&self) -> A {
        self.page_allocator
    }

    /// The tables, each by its address and level.
    pub closed spec fn tables_spec(&self) -> Seq<(u64, u8)> {
        self.tables@
    }

    /// The entries of all tables, 512 per table in table order.
    pub closed spec fn entries_spec(&self) -> Seq<u64> {
        self.entries@
    }

    /// The tables form a well-formed hierarchy under the PML4.
    pub open spec fn wf(&self) -> bool {
        tables_wf(self.tables_spec(), self.entries_spec(), self.pml4_spec())
    }

    /// The physical page that `v` is mapped to.
    pub open spec fn translation(&self, v: u64) -> Option<u64> {
        translate(self.tables_spec(), self.entries_spec(), self.pml4_spec(), v)
    }

    /// The page map with an empty PML4 taken from `page_allocator`; `None` when the
    /// allocator has no page (it hands out 0).
    pub fn new(page_allocator: A) -> (r: Option<Self>)
        ensures
            exists|a: u64, after: A| {
                &&& #[trigger] page_allocator.alloc_outcome(&after, 1, a)
                &&& (a == 0 <==> r is None)
                &&& (r matches Some(m) ==> m.pml4_spec() == a && m.allocator() == after)
            },
            r matches Some(m) ==> m.wf() && m.tables_spec().len() == 1
                && forall|v: u64| #[trigger] m.translation(v) is None,
    {
        let ghost given = page_allocator;
        let mut page_allocator = page_allocator;
        let address: u64 = page_allocator.alloc_pages(1);
        let ghost after = page_allocator;
        if address == 0 {
            proof {
                assert(given.alloc_outcome(&after, 1, address));
            }
            return None;
        }
        let mut tables: Vec<(u64, u8)> = Vec::new();
        tables.push((address, 4));
        let mut entries: Vec<u64> = Vec::new();
        Self::push_empty_table(&mut entries);
        let m = Self { pml4: address, tables, entries, page_allocator };
        proof {
            assert(m.tables_spec()[0].0 == address);
            assert forall|p: int| 0 <= p < m.entries_spec().len() implies !present(#[trigger] m.entries_spec()[p]) by {
                assert(m.entries_spec()[p] == 0);
                lemma_zero_entry();
            }
            assert forall|v: u64| #[trigger] m.translation(v) is None by {
                lemma_table_index(m.tables_spec(), 0);
                let i4 = index_for(v, 4) as int;
                lemma_indices(v);
                lemma_position(0, i4, 1);
            }
            assert(given.alloc_outcome(&after, 1, address) && m.allocator() == after);
        }
        Some(m)
    }

    /// Appends the 512 empty entries of a new table.
    fn push_empty_table(entries: &mut Vec<u64>)
        ensures
            final(entries)@.len() == old(entries)@.len() + 512,
            final(entries)@.subrange(0, old(entries)@.len() as int) == old(entries)@,
            forall|p: int| old(entries)@.len() <= p < final(entries)@.len() ==> #[trigger] final(entries)@[p] == 0,
    {
        let ghost start = entries@.len();
        let mut i: usize = 0;
        while i < ENTRY_COUNT
            invariant
                i <= ENTRY_COUNT,
                entries@.len() == start + i,
                entries@.subrange(0, start as int) == old(entries)@,
                forall|p: int| start <= p < entries@.len() ==> #[trigger] entries@[p] == 0,
            decreases ENTRY_COUNT - i,
        {
            entries.push(0);
            proof {
                assert(entries@.subrange(0, start as int) =~= old(entries)@);
            }
            i = i + 1;
        }
    }

    /// The address of the PML4, for the CR3 register.
    pub fn pml4_address(&self) -> (r: PhysicalAddress)
        ensures
            r.0 == self.pml4_spec(),
    {
        PhysicalAddress(self.pml4)
    }

    /// The tables, each by its address and level, in the order they were made.
    pub fn tables(&self) -> (r: &[(u64, u8)])
        ensures
            r@ == self.tables_spec(),
    {
        self.tables.as_slice()
    }

    /// The raw entries of all tables, 512 per table in table order, as the tables are to be
    /// laid out in memory.
    pub fn entries(&self) -> (r: &[u64])
        ensures
            r@ == self.entries_spec(),
    {
        self.entries.as_slice()
    }

    /// The position of the table at `address`.
    fn find_table(&self, address: u64) -> (r: Option<usize>)
        ensures
            r matches Some(i) ==> i < self.tables_spec().len() && self.tables_spec()[i as int].0 == address,
            r is None ==> forall|i: int| 0 <= i < self.tables_spec().len() ==> (#[trigger] self.tables_spec()[i]).0 != address,
    {
        let mut i: usize = 0;
        while i < self.tables.len()
            invariant
                i <= self.tables@.len(),
                forall|k: int| 0 <= k < i ==> (#[trigger] self.tables@[k]).0 != address,
            decreases self.tables@.len() - i,
        {
            if self.tables[i].0 == address {
                return Some(i);
            }
            i = i + 1;
        }
        None
    }

    /// Follows entry `index` of table `parent` (above level 1) to the table one level down;
    /// when the entry is not present, takes a page from the allocator, makes it an empty
    /// table and points the entry at it with `options`. `None`, with nothing changed, when
    /// the allocator gives a null, unaligned or already used page.
    fn get_or_create_child(&mut self, parent: usize, index: usize, options: PageOptions) -> (r: Option<usize>)
        requires
            old(self).wf(),
            parent < old(self).tables_spec().len(),
            old(self).tables_spec()[parent as int].1 >= 2,
            index < 512,
        ensures
            final(self).wf(),
            final(self).pml4_spec() == old(self).pml4_spec(),
            final(self).tables_spec().len() >= old(self).tables_spec().len(),
            final(self).tables_spec().subrange(0, old(self).tables_spec().len() as int) == old(self).tables_spec(),
            forall|p: int| 0 <= p < old(self).entries_spec().len() && p != parent * 512 + index
                ==> #[trigger] final(self).entries_spec()[p] == old(self).entries_spec()[p],
            present(old(self).entries_spec()[parent * 512 + index]) ==> {
                &&& final(self).tables_spec() == old(self).tables_spec()
                &&& final(self).entries_spec() == old(self).entries_spec()
                &&& final(self).allocator() == old(self).allocator()
                &&& r matches Some(c) && c == table_index(old(self).tables_spec(), target(old(self).entries_spec()[parent * 512 + index]))
            },
            !present(old(self).entries_spec()[parent * 512 + index]) ==> exists|a: u64| {
                &&& #[trigger] old(self).allocator().alloc_outcome(&final(self).allocator(), 1, a)
                &&& (r is None <==> page_refused(a, old(self).tables_spec()))
                &&& (r matches Some(c) ==> final(self).tables_spec()[c as int].0 == a)
            },
            r is None ==> {
                &&& final(self).tables_spec() == old(self).tables_spec()
                &&& final(self).entries_spec() == old(self).entries_spec()
            },
            !present(old(self).entries_spec()[parent * 512 + index]) && r is Some ==> {
                &&& r == Some(old(self).tables_spec().len() as usize)
                &&& final(self).tables_spec().len() == old(self).tables_spec().len() + 1
                &&& forall|p: int| old(self).entries_spec().len() <= p < final(self).entries_spec().len()
                    ==> #[trigger] final(self).entries_spec()[p] == 0
            },
            r matches Some(c) ==> child_step(old(self).tables_spec(), old(self).entries_spec(), final(self).tables_spec(),
                final(self).entries_spec(), old(self).pml4_spec(), parent as int, index as int, c as int),
            r matches Some(c) ==> {
                &&& c < final(self).tables_spec().len()
                &&& final(self).tables_spec()[c as int].1 == old(self).tables_spec()[parent as int].1 - 1
                &&& present(final(self).entries_spec()[parent * 512 + index])
                &&& target(final(self).entries_spec()[parent * 512 + index]) == final(self).tables_spec()[c as int].0
            },
    {
        let n: usize = self.entries.len();
        proof {
            lemma_position(parent as int, index as int, self.tables@.len() as int);
        }
        let pos: usize = parent * 512 + index;
        let level: u8 = self.tables[parent].1;
        let entry = PageEntry::<Pml4>::from_raw(self.entries[pos]);
        if entry.is_present() {
            let child_address = entry.address();
            proof {
                assert(tables_wf(self.tables@, self.entries@, self.pml4));
                assert(present(self.entries@[pos as int]));
                assert(pos as int / 512 == parent);
            }
            match self.find_table(child_address.0) {
                Some(c) => {
                    proof {
                        lemma_target_index(self.tables@, self.entries@, self.pml4, pos as int);
                        lemma_table_index(self.tables@, c as int);
                        assert(self.tables@.subrange(0, self.tables@.len() as int) =~= self.tables@);
                    }
                    return Some(c);
                },
                None => {
                    proof {
                        let j = choose|j: int| 0 <= j < self.tables@.len() && (#[trigger] self.tables@[j]).0
                            == target(self.entries@[pos as int]) && self.tables@[j].1 == self.tables@[pos as int / 512].1 - 1;
                        assert(self.tables@[j].0 != child_address.0);
                    }
                    return None;
                },
            }
        }
        let address: u64 = self.page_allocator.alloc_pages(1);
        proof {
            assert(old(self).allocator().alloc_outcome(&self.allocator(), 1, address));
        }
        if address == 0 || address % 4096 != 0 {
            return None;
        }
        let found = self.find_table(address);
        if found.is_some() {
            proof {
                let i = found->0 as int;
                assert(0 <= i < old(self).tables_spec().len() && old(self).tables_spec()[i].0 == address);
            }
            return None;
        }
        proof {
            assert forall|i: int| 0 <= i < self.tables@.len() implies (#[trigger] self.tables@[i]).0 != address by {
                assert(self.tables_spec()[i].0 != address);
            }
        }
        let ghost old_tables = self.tables@;
        let ghost old_entries = self.entries@;
        let c: usize = self.tables.len();
        proof {
            vstd::arithmetic::div_mod::lemma_fundamental_div_mod(address as int, 4096);
            assert(address & !0xFFFu64 == address) by {
                lemma_aligned_target(address);
            }
        }
        self.tables.push((address, level - 1));
        Self::push_empty_table(&mut self.entries);
        let new_entry = PageEntry::<Pml4>::new_present(PhysicalAddress(address), options);
        self.entries.set(pos, new_entry.into_raw());
        proof {
            let tables = self.tables@;
            let entries = self.entries@;
            assert(tables.subrange(0, old_tables.len() as int) =~= old_tables);
            assert(tables[c as int] == (address, (level - 1) as u8));
            assert(distinct_addresses(tables)) by {
                assert forall|i: int, j: int| 0 <= i < tables.len() && 0 <= j < tables.len() && i != j
                    implies (#[trigger] tables[i]).0 != (#[trigger] tables[j]).0 by {
                    if i < old_tables.len() && j < old_tables.len() {
                        assert(tables[i] == old_tables[i]);
                        assert(tables[j] == old_tables[j]);
                    } else if i < old_tables.len() {
                        assert(tables[i] == old_tables[i]);
                    } else {
                        assert(tables[j] == old_tables[j]);
                    }
                }
            }
            assert(entries.len() == tables.len() * 512);
            assert forall|i: int| 0 <= i < tables.len() implies 1 <= (#[trigger] tables[i]).1 <= 4 by {
                if i < old_tables.len() {
                    assert(tables[i] == old_tables[i]);
                }
            }
            let k = choose|k: int| 0 <= k < old_tables.len() && (#[trigger] old_tables[k]).0 == self.pml4
                && old_tables[k].1 == 4;
            assert(tables[k] == old_tables[k]);
            assert forall|p: int| 0 <= p < entries.len() && tables[p / 512].1 >= 2 && present(#[trigger] entries[p])
                implies {
                    &&& !huge(entries[p])
                    &&& exists|j: int| 0 <= j < tables.len() && (#[trigger] tables[j]).0 == target(entries[p])
                        && tables[j].1 == tables[p / 512].1 - 1
                } by {
                if p == pos {
                    assert(p / 512 == parent);
                    assert(tables[c as int].0 == target(entries[p]));
                } else if p < old_entries.len() {
                    assert(entries[p] == old_entries[p]);
                    assert(0 <= p / 512 < old_tables.len()) by {
                        vstd::arithmetic::div_mod::lemma_div_is_ordered(p, (old_tables.len() * 512) as int - 1, 512);
                        lemma_position(old_tables.len() - 1, 511, old_tables.len() as int);
                    }
                    assert(tables[p / 512] == old_tables[p / 512]);
                    let j = choose|j: int| 0 <= j < old_tables.len() && (#[trigger] old_tables[j]).0 == target(old_entries[p])
                        && old_tables[j].1 == old_tables[p / 512].1 - 1;
                    assert(tables[j] == old_tables[j]);
                } else {
                    assert(entries[p] == 0);
                    lemma_zero_entry();
                }
            }
            assert(single_parent(tables, entries)) by {
                assert forall|p: int, q: int| 0 <= p < entries.len() && 0 <= q < entries.len() && p != q
                    && tables[p / 512].1 >= 2 && tables[q / 512].1 >= 2
                    && present(#[trigger] entries[p]) && present(#[trigger] entries[q])
                    implies target(entries[p]) != target(entries[q]) by {
                    lemma_zero_entry();
                    if p == pos || q == pos {
                        let o = if p == pos { q } else { p };
                        if o < old_entries.len() {
                            assert(entries[o] == old_entries[o]);
                            assert(0 <= o / 512 < old_tables.len()) by {
                                vstd::arithmetic::div_mod::lemma_div_is_ordered(o, (old_tables.len() * 512) as int - 1, 512);
                                lemma_position(old_tables.len() - 1, 511, old_tables.len() as int);
                            }
                            assert(tables[o / 512] == old_tables[o / 512]);
                            let j = choose|j: int| 0 <= j < old_tables.len() && (#[trigger] old_tables[j]).0 == target(old_entries[o])
                                && old_tables[j].1 == old_tables[o / 512].1 - 1;
                            assert(old_tables[j].0 != address);
                        } else {
                            assert(entries[o] == 0);
                        }
                    } else if p < old_entries.len() && q < old_entries.len() {
                        assert(entries[p] == old_entries[p]);
                        assert(entries[q] == old_entries[q]);
                        assert(0 <= p / 512 < old_tables.len()) by {
                            vstd::arithmetic::div_mod::lemma_div_is_ordered(p, (old_tables.len() * 512) as int - 1, 512);
                            lemma_position(old_tables.len() - 1, 511, old_tables.len() as int);
                        }
                        assert(0 <= q / 512 < old_tables.len()) by {
                            vstd::arithmetic::div_mod::lemma_div_is_ordered(q, (old_tables.len() * 512) as int - 1, 512);
                            lemma_position(old_tables.len() - 1, 511, old_tables.len() as int);
                        }
                        assert(tables[p / 512] == old_tables[p / 512]);
                        assert(tables[q / 512] == old_tables[q / 512]);
                    } else if p >= old_entries.len() {
                        assert(entries[p] == 0);
                    } else {
                        assert(entries[q] == 0);
                    }
                }
            }
        }
        proof {
            assert(old(self).allocator().alloc_outcome(&self.allocator(), 1, address));
            assert(old_tables == old(self).tables_spec());
            assert(!(exists|i: int| 0 <= i < old(self).tables_spec().len() && (#[trigger] old(self).tables_spec()[i]).0 == address));
            assert(self.tables_spec()[c as int].0 == address);
        }
        Some(c)
    }

    /// The position of the PML4 among the tables.
    fn root(&self) -> (r: usize)
        requires
            self.wf(),
        ensures
            r < self.tables_spec().len(),
            self.tables_spec()[r as int].0 == self.pml4_spec(),
            self.tables_spec()[r as int].1 == 4,
            table_index(self.tables_spec(), self.pml4_spec()) == r,
    {
        match self.find_table(self.pml4) {
            Some(i) => {
                proof {
                    let k = choose|k: int| 0 <= k < self.tables@.len() && (#[trigger] self.tables@[k]).0 == self.pml4
                        && self.tables@[k].1 == 4;
                    lemma_table_index(self.tables@, k);
                    lemma_table_index(self.tables@, i as int);
                }
                i
            },
            None => {
                proof {
                    let k = choose|k: int| 0 <= k < self.tables@.len() && (#[trigger] self.tables@[k]).0 == self.pml4
                        && self.tables@[k].1 == 4;
                    assert(self.tables_spec()[k].0 != self.pml4);
                }
                0
            },
        }
    }

    /// Maps the page of `vaddr` to the page of `paddr` with `options`, creating the tables on
    /// the way that are missing, and returns the address that the page-table entry held
    /// before (zero where the entry was new). `None` when the allocator could not give a
    /// fresh page for a missing table; the tables made until then stay, empty.
    pub fn map(&mut self, vaddr: VirtualAddress, paddr: PhysicalAddress, options: PageOptions) -> (r: Option<PhysicalAddress>)
        requires
            old(self).wf(),
        ensures
            final(self).wf(),
            final(self).pml4_spec() == old(self).pml4_spec(),
            pt_entry(old(self).tables_spec(), old(self).entries_spec(), old(self).pml4_spec(), vaddr.0) is Some
                ==> r is Some && final(self).allocator() == old(self).allocator(),
            exists|states: Seq<A>, pages: Seq<u64>| {
                &&& #[trigger] page_allocations(states, pages)
                &&& states[0] == old(self).allocator()
                &&& states.last() == final(self).allocator()
                &&& map_allocations(old(self).tables_spec(), final(self).tables_spec(), pages, r is Some,
                    missing_tables(old(self).tables_spec(), old(self).entries_spec(), old(self).pml4_spec(), vaddr.0))
            },
            r matches Some(previous) ==> {
                &&& final(self).translation(vaddr.0) == Some(paddr.0 & !0xFFFu64)
                &&& forall|v2: u64| (index_for(v2, 4), index_for(v2, 3), index_for(v2, 2), index_for(v2, 1))
                    != (index_for(vaddr.0, 4), index_for(vaddr.0, 3), index_for(vaddr.0, 2), index_for(vaddr.0, 1))
                    ==> #[trigger] final(self).translation(v2) == old(self).translation(v2)
                &&& previous.0 == match pt_entry(old(self).tables_spec(), old(self).entries_spec(), old(self).pml4_spec(), vaddr.0) {
                    Some(e) => target(e),
                    None => 0,
                }
            },
    {
        let root = self.root();
        let ghost t0 = self.tables@;
        let ghost e0 = self.entries@;
        let ghost v = vaddr.0;
        let ghost m = missing_tables(t0, e0, self.pml4, v);
        let ghost mut states: Seq<A> = seq![self.allocator()];
        let ghost mut pages: Seq<u64> = Seq::empty();
        proof {
            lemma_indices(v);
            assert(t0.subrange(0, t0.len() as int) =~= t0);
            assert(tables_added(t0, t0, pages, 0));
        }
        let i4 = PageMapLevel::<Pml4>::get_index(vaddr);
        proof {
            lemma_position(root as int, i4 as int, t0.len() as int);
        }
        let ghost x1 = e0[root * 512 + i4];
        let ghost al0 = self.allocator();
        let res1 = self.get_or_create_child(root, i4, options);
        let ghost t1 = self.tables@;
        let ghost e1 = self.entries@;
        proof {
            assert(x1 == raw_entry(t0, e0, self.pml4, index_for(v, 4) as int));
            if !present(x1) {
                let a = choose|a: u64| {
                    &&& #[trigger] al0.alloc_outcome(&self.allocator(), 1, a)
                    &&& (res1 is None <==> page_refused(a, t0))
                    &&& (res1 matches Some(c) ==> t1[c as int].0 == a)
                };
                lemma_allocations_push(states, pages, self.allocator(), a);
                if res1 is Some {
                    lemma_tables_added_step(t0, t0, t1, pages, a);
                } else {
                    lemma_tables_added_refused(t0, t0, pages, a);
                }
                states = states.push(self.allocator());
                pages = pages.push(a);
            }
        }
        let c3 = match res1 {
            Some(c) => c,
            None => {
                proof {
                    assert(map_allocations(t0, self.tables_spec(), pages, false, m));
                }
                return None;
            },
        };
        let i3 = PageMapLevel::<Pdpt>::get_index(vaddr);
        proof {
            lemma_position(c3 as int, i3 as int, t1.len() as int);
            if !present(x1) {
                lemma_new_position(c3 as int, i3 as int, t0.len() as int);
                lemma_zero_entry();
            }
        }
        let ghost x2 = e1[c3 * 512 + i3];
        let ghost al1 = self.allocator();
        proof {
            assert(present(x2) <==> m < 2);
            assert(pages.len() == if m == 3 { 1int } else { 0int });
            assert(tables_added(t0, t1, pages, pages.len() as int));
            assert(page_allocations(states, pages) && states[0] == al0 && states.last() == al1);
        }
        let res2 = self.get_or_create_child(c3, i3, options);
        let ghost t2 = self.tables@;
        let ghost e2 = self.entries@;
        proof {
            if !present(x2) {
                let a = choose|a: u64| {
                    &&& #[trigger] al1.alloc_outcome(&self.allocator(), 1, a)
                    &&& (res2 is None <==> page_refused(a, t1))
                    &&& (res2 matches Some(c) ==> t2[c as int].0 == a)
                };
                lemma_allocations_push(states, pages, self.allocator(), a);
                if res2 is Some {
                    lemma_tables_added_step(t0, t1, t2, pages, a);
                } else {
                    lemma_tables_added_refused(t0, t1, pages, a);
                }
                states = states.push(self.allocator());
                pages = pages.push(a);
            }
        }
        let c2 = match res2 {
            Some(c) => c,
            None => {
                proof {
                    assert(map_allocations(t0, self.tables_spec(), pages, false, m));
                }
                return None;
            },
        };
        let i2 = PageMapLevel::<Pd>::get_index(vaddr);
        proof {
            lemma_position(c2 as int, i2 as int, t2.len() as int);
            if !present(x2) {
                lemma_new_position(c2 as int, i2 as int, t1.len() as int);
                lemma_zero_entry();
            }
        }
        let ghost x3 = e2[c2 * 512 + i2];
        let ghost al2 = self.allocator();
        proof {
            assert(present(x3) <==> m < 1);
            assert(pages.len() == if m >= 2 { m - 1 } else { 0int });
            assert(tables_added(t0, t2, pages, pages.len() as int));
            assert(page_allocations(states, pages) && states[0] == al0 && states.last() == al2);
        }
        let res3 = self.get_or_create_child(c2, i2, options);
        let ghost t3 = self.tables@;
        let ghost e3 = self.entries@;
        proof {
            if !present(x3) {
                let a = choose|a: u64| {
                    &&& #[trigger] al2.alloc_outcome(&self.allocator(), 1, a)
                    &&& (res3 is None <==> page_refused(a, t2))
                    &&& (res3 matches Some(c) ==> t3[c as int].0 == a)
                };
                lemma_allocations_push(states, pages, self.allocator(), a);
                if res3 is Some {
                    lemma_tables_added_step(t0, t2, t3, pages, a);
                } else {
                    lemma_tables_added_refused(t0, t2, pages, a);
                }
                states = states.push(self.allocator());
                pages = pages.push(a);
            }
        }
        let c1 = match res3 {
            Some(c) => c,
            None => {
                proof {
                    assert(map_allocations(t0, self.tables_spec(), pages, false, m));
                }
                return None;
            },
        };
        proof {
            assert(pages.len() == m);
            assert(tables_added(t0, t3, pages, pages.len() as int));
        }
        let i1 = PageMapLevel::<Pt>::get_index(vaddr);
        let n: usize = self.entries.len();
        proof {
            lemma_position(c1 as int, i1 as int, self.tables@.len() as int);
        }
        let pos: usize = c1 * 512 + i1;
        let old_entry = PageEntry::<Pt>::from_raw(self.entries[pos]);
        let previous = old_entry.address();
        let new_entry = PageEntry::<Pt>::new_present(paddr, options);
        self.entries.set(pos, new_entry.into_raw());
        proof {
            let tf = self.tables@;
            let ef = self.entries@;
            lemma_write_pt_entry(t3, e3, self.pml4, c1 as int, i1 as int, new_entry.raw());
            lemma_compose_steps(t0, e0, t1, e1, t2, e2, t3, e3, ef, self.pml4, root as int, c3 as int, c2 as int,
                c1 as int, i4 as int, i3 as int, i2 as int, i1 as int);
            lemma_map_walk(t0, e0, tf, ef, self.pml4, root as int, c3 as int, c2 as int, c1 as int, i4 as int,
                i3 as int, i2 as int, i1 as int, vaddr.0);
            lemma_zero_target();
            assert forall|v2: u64| (index_for(v2, 4), index_for(v2, 3), index_for(v2, 2), index_for(v2, 1))
                != (index_for(vaddr.0, 4), index_for(vaddr.0, 3), index_for(vaddr.0, 2), index_for(vaddr.0, 1))
                implies #[trigger] translate(tf, ef, self.pml4, v2) == translate(t0, e0, self.pml4, v2) by {
                lemma_map_keeps_other_pages(t0, e0, tf, ef, self.pml4, root as int, c3 as int, c2 as int, c1 as int,
                    i4 as int, i3 as int, i2 as int, i1 as int, v2);
            }
            assert(map_allocations(t0, tf, pages, true, m));
        }
        Some(previous)
    }

    /// Follows entry `index` of table `parent` (above level 1) to the table one level down;
    /// `None` when the entry is not present. A present entry there never maps a large page.
    fn get_child(&self, parent: usize, index: usize) -> (r: Option<usize>)
        requires
            self.wf(),
            parent < self.tables_spec().len(),
            self.tables_spec()[parent as int].1 >= 2,
            index < 512,
        ensures
            !present(self.entries_spec()[parent * 512 + index]) ==> r is None,
            present(self.entries_spec()[parent * 512 + index]) ==> (r matches Some(c) && {
                &&& c < self.tables_spec().len()
                &&& self.tables_spec()[c as int].0 == target(self.entries_spec()[parent * 512 + index])
                &&& self.tables_spec()[c as int].1 == self.tables_spec()[parent as int].1 - 1
                &&& table_index(self.tables_spec(), target(self.entries_spec()[parent * 512 + index])) == c
            }),
    {
        let n: usize = self.entries.len();
        proof {
            lemma_position(parent as int, index as int, self.tables@.len() as int);
        }
        let pos: usize = parent * 512 + index;
        let entry = PageEntry::<Pml4>::from_raw(self.entries[pos]);
        if !entry.is_present() {
            return None;
        }
        let child_address = entry.address();
        proof {
            assert(present(self.entries@[pos as int]));
            assert(pos as int / 512 == parent);
        }
        let ghost j = choose|j: int| 0 <= j < self.tables@.len() && (#[trigger] self.tables@[j]).0
            == target(self.entries@[pos as int]) && self.tables@[j].1 == self.tables@[pos as int / 512].1 - 1;
        match self.find_table(child_address.0) {
            Some(c) => {
                proof {
                    lemma_table_index(self.tables@, c as int);
                    lemma_table_index(self.tables@, j);
                }
                Some(c)
            },
            None => {
                proof {
                    assert(self.tables_spec()[j].0 != child_address.0);
                }
                None
            },
        }
    }

    /// Removes the mapping of the page of `vaddr` and returns the address it was mapped to;
    /// `None`, with nothing changed, when the page is not mapped.
    pub fn unmap(&mut self, vaddr: VirtualAddress) -> (r: Option<PhysicalAddress>)
        requires
            old(self).wf(),
        ensures
            final(self).wf(),
            final(self).pml4_spec() == old(self).pml4_spec(),
            final(self).tables_spec() == old(self).tables_spec(),
            r == match old(self).translation(vaddr.0) {
                Some(a) => Some(PhysicalAddress(a)),
                None => None::<PhysicalAddress>,
            },
            r is None ==> final(self).entries_spec() == old(self).entries_spec(),
            r is Some ==> final(self).translation(vaddr.0) is None,
            forall|w: u64| (index_for(w, 4), index_for(w, 3), index_for(w, 2), index_for(w, 1))
                != (index_for(vaddr.0, 4), index_for(vaddr.0, 3), index_for(vaddr.0, 2), index_for(vaddr.0, 1))
                ==> #[trigger] final(self).translation(w) == old(self).translation(w),
    {
        let root = self.root();
        let ghost v = vaddr.0;
        proof {
            lemma_indices(v);
        }
        let i4 = PageMapLevel::<Pml4>::get_index(vaddr);
        let c3 = match self.get_child(root, i4) {
            Some(c) => c,
            None => {
                return None;
            },
        };
        let i3 = PageMapLevel::<Pdpt>::get_index(vaddr);
        let c2 = match self.get_child(c3, i3) {
            Some(c) => c,
            None => {
                return None;
            },
        };
        let i2 = PageMapLevel::<Pd>::get_index(vaddr);
        let c1 = match self.get_child(c2, i2) {
            Some(c) => c,
            None => {
                return None;
            },
        };
        let i1 = PageMapLevel::<Pt>::get_index(vaddr);
        let n: usize = self.entries.len();
        proof {
            lemma_position(c1 as int, i1 as int, self.tables@.len() as int);
        }
        let pos: usize = c1 * 512 + i1;
        let entry = PageEntry::<Pt>::from_raw(self.entries[pos]);
        proof {
            assert(pt_entry(self.tables@, self.entries@, self.pml4, v) == Some(self.entries@[pos as int]));
        }
        if !entry.is_present() {
            return None;
        }
        let previous = entry.address();
        let ghost e0 = self.entries@;
        self.entries.set(pos, PageEntry::<Pt>::empty().into_raw());
        proof {
            let tf = self.tables@;
            let ef = self.entries@;
            lemma_zero_entry();
            lemma_positions_differ(root as int, i4 as int, c1 as int, i1 as int);
            lemma_positions_differ(c3 as int, i3 as int, c1 as int, i1 as int);
            lemma_positions_differ(c2 as int, i2 as int, c1 as int, i1 as int);
            assert(pt_entry(tf, ef, self.pml4, v) == Some(ef[pos as int]));
            lemma_write_pt_entry(tf, e0, self.pml4, c1 as int, i1 as int, 0);
            assert(ef == e0.update(pos as int, 0));
            lemma_table_index(tf, c3 as int);
            lemma_table_index(tf, c2 as int);
            lemma_table_index(tf, c1 as int);
            assert(walk_path(tf, e0, self.pml4, v, root as int, c3 as int, c2 as int, c1 as int));
            assert forall|w: u64| (index_for(w, 4), index_for(w, 3), index_for(w, 2), index_for(w, 1))
                != (index_for(v, 4), index_for(v, 3), index_for(v, 2), index_for(v, 1))
                implies #[trigger] translate(tf, ef, self.pml4, w) == translate(tf, e0, self.pml4, w) by {
                lemma_unmap_keeps_other_pages(tf, e0, self.pml4, v, root as int, c3 as int, c2 as int, c1 as int, w);
            }
        }
        Some(previous)
    }

    /// Gives back every table under the PML4 at `table`, then the PML4 itself.
    fn free_pml4(&mut self, table: usize)
        requires
            old(self).wf(),
            table < old(self).tables_spec().len(),
            old(self).tables_spec()[table as int].1 == 4,
        ensures
            final(self).tables_spec() == old(self).tables_spec(),
            final(self).entries_spec() == old(self).entries_spec(),
            final(self).pml4_spec() == old(self).pml4_spec(),
            deallocs(old(self).allocator(), final(self).allocator(),
                released(old(self).tables_spec(), old(self).entries_spec(), table as int, 4)),
    {
        let mut index: usize = 0;
        proof {
            lemma_deallocs_none(self.allocator());
            assert(released_under(self.tables_spec(), self.entries_spec(), table as int, 4, 0) =~= Seq::<u64>::empty());
        }
        while index < ENTRY_COUNT
            invariant
                self.wf(),
                table < self.tables_spec().len(),
                self.tables_spec()[table as int].1 == 4,
                self.tables_spec() == old(self).tables_spec(),
                self.entries_spec() == old(self).entries_spec(),
                self.pml4_spec() == old(self).pml4_spec(),
                index <= ENTRY_COUNT,
                deallocs(old(self).allocator(), self.allocator(),
                    released_under(self.tables_spec(), self.entries_spec(), table as int, 4, index as nat)),
            decreases ENTRY_COUNT - index,
        {
            let ghost before = self.allocator();
            let ghost t = self.tables_spec();
            let ghost e = self.entries_spec();
            if let Some(child) = self.get_child(table, index) {
                self.free_pdpt(child);
                proof {
                    lemma_deallocs_append(old(self).allocator(), before, self.allocator(),
                        released_under(t, e, table as int, 4, index as nat), released(t, e, child as int, 3));
                }
            }
            proof {
                assert(released_under(t, e, table as int, 4, (index + 1) as nat) =~= if present(e[table * 512 + index]) {
                    released_under(t, e, table as int, 4, index as nat)
                        + released(t, e, table_index(t, target(e[table * 512 + index])), 3)
                } else {
                    released_under(t, e, table as int, 4, index as nat)
                });
            }
            index = index + 1;
        }
        let address: u64 = self.tables[table].0;
        let ghost before = self.allocator();
        self.page_allocator.dealloc_pages(address, 1);
        proof {
            lemma_deallocs_one(old(self).allocator(), before, self.allocator(),
                released_under(self.tables_spec(), self.entries_spec(), table as int, 4, 512), address);
            assert(released(self.tables_spec(), self.entries_spec(), table as int, 4)
                =~= released_under(self.tables_spec(), self.entries_spec(), table as int, 4, 512).push(address));
        }
    }

    /// Gives back every table under the PDPT at `table`, then the PDPT itself.
    fn free_pdpt(&mut self, table: usize)
        requires
            old(self).wf(),
            table < old(self).tables_spec().len(),
            old(self).tables_spec()[table as int].1 == 3,
        ensures
            final(self).tables_spec() == old(self).tables_spec(),
            final(self).entries_spec() == old(self).entries_spec(),
            final(self).pml4_spec() == old(self).pml4_spec(),
            deallocs(old(self).allocator(), final(self).allocator(),
                released(old(self).tables_spec(), old(self).entries_spec(), table as int, 3)),
    {
        let mut index: usize = 0;
        proof {
            lemma_deallocs_none(self.allocator());
            assert(released_under(self.tables_spec(), self.entries_spec(), table as int, 3, 0) =~= Seq::<u64>::empty());
        }
        while index < ENTRY_COUNT
            invariant
                self.wf(),
                table < self.tables_spec().len(),
                self.tables_spec()[table as int].1 == 3,
                self.tables_spec() == old(self).tables_spec(),
                self.entries_spec() == old(self).entries_spec(),
                self.pml4_spec() == old(self).pml4_spec(),
                index <= ENTRY_COUNT,
                deallocs(old(self).allocator(), self.allocator(),
                    released_under(self.tables_spec(), self.entries_spec(), table as int, 3, index as nat)),
            decreases ENTRY_COUNT - index,
        {
            let ghost before = self.allocator();
            let ghost t = self.tables_spec();
            let ghost e = self.entries_spec();
            if let Some(child) = self.get_child(table, index) {
                self.free_pd(child);
                proof {
                    lemma_deallocs_append(old(self).allocator(), before, self.allocator(),
                        released_under(t, e, table as int, 3, index as nat), released(t, e, child as int, 2));
                }
            }
            proof {
                assert(released_under(t, e, table as int, 3, (index + 1) as nat) =~= if present(e[table * 512 + index]) {
                    released_under(t, e, table as int, 3, index as nat)
                        + released(t, e, table_index(t, target(e[table * 512 + index])), 2)
                } else {
                    released_under(t, e, table as int, 3, index as nat)
                });
            }
            index = index + 1;
        }
        let address: u64 = self.tables[table].0;
        let ghost before = self.allocator();
        self.page_allocator.dealloc_pages(address, 1);
        proof {
            lemma_deallocs_one(old(self).allocator(), before, self.allocator(),
                released_under(self.tables_spec(), self.entries_spec(), table as int, 3, 512), address);
            assert(released(self.tables_spec(), self.entries_spec(), table as int, 3)
                =~= released_under(self.tables_spec(), self.entries_spec(), table as int, 3, 512).push(address));
        }
    }

    /// Gives back every page table under the page directory at `table`, then the directory itself.
    fn free_pd(&mut self, table: usize)
        requires
            old(self).wf(),
            table < old(self).tables_spec().len(),
            old(self).tables_spec()[table as int].1 == 2,
        ensures
            final(self).tables_spec() == old(self).tables_spec(),
            final(self).entries_spec() == old(self).entries_spec(),
            final(self).pml4_spec() == old(self).pml4_spec(),
            deallocs(old(self).allocator(), final(self).allocator(),
                released(old(self).tables_spec(), old(self).entries_spec(), table as int, 2)),
    {
        let mut index: usize = 0;
        proof {
            lemma_deallocs_none(self.allocator());
            assert(released_under(self.tables_spec(), self.entries_spec(), table as int, 2, 0) =~= Seq::<u64>::empty());
        }
        while index < ENTRY_COUNT
            invariant
                self.wf(),
                table < self.tables_spec().len(),
                self.tables_spec()[table as int].1 == 2,
                self.tables_spec() == old(self).tables_spec(),
                self.entries_spec() == old(self).entries_spec(),
                self.pml4_spec() == old(self).pml4_spec(),
                index <= ENTRY_COUNT,
                deallocs(old(self).allocator(), self.allocator(),
                    released_under(self.tables_spec(), self.entries_spec(), table as int, 2, index as nat)),
            decreases ENTRY_COUNT - index,
        {
            let ghost before = self.allocator();
            let ghost t = self.tables_spec();
            let ghost e = self.entries_spec();
            if let Some(child) = self.get_child(table, index) {
                self.free_pt(child);
                proof {
                    lemma_deallocs_append(old(self).allocator(), before, self.allocator(),
                        released_under(t, e, table as int, 2, index as nat), released(t, e, child as int, 1));
                }
            }
            proof {
                assert(released_under(t, e, table as int, 2, (index + 1) as nat) =~= if present(e[table * 512 + index]) {
                    released_under(t, e, table as int, 2, index as nat)
                        + released(t, e, table_index(t, target(e[table * 512 + index])), 1)
                } else {
                    released_under(t, e, table as int, 2, index as nat)
                });
            }
            index = index + 1;
        }
        let address: u64 = self.tables[table].0;
        let ghost before = self.allocator();
        self.page_allocator.dealloc_pages(address, 1);
        proof {
            lemma_deallocs_one(old(self).allocator(), before, self.allocator(),
                released_under(self.tables_spec(), self.entries_spec(), table as int, 2, 512), address);
            assert(released(self.tables_spec(), self.entries_spec(), table as int, 2)
                =~= released_under(self.tables_spec(), self.entries_spec(), table as int, 2, 512).push(address));
        }
    }

    /// Gives back the page table at `table`.
    fn free_pt(&mut self, table: usize)
        requires
            table < old(self).tables_spec().len(),
        ensures
            final(self).tables_spec() == old(self).tables_spec(),
            final(self).entries_spec() == old(self).entries_spec(),
            final(self).pml4_spec() == old(self).pml4_spec(),
            deallocs(old(self).allocator(), final(self).allocator(),
                released(old(self).tables_spec(), old(self).entries_spec(), table as int, 1)),
    {
        let address: u64 = self.tables[table].0;
        let ghost before = self.allocator();
        self.page_allocator.dealloc_pages(address, 1);
        proof {
            lemma_deallocs_none(before);
            lemma_deallocs_one(before, before, self.allocator(), Seq::<u64>::empty(), address);
            assert(released(self.tables_spec(), self.entries_spec(), table as int, 1) =~= Seq::<u64>::empty().push(address));
        }
    }

    /// Gives every table of the map back to the allocator, the tables under each entry
    /// before the table that holds it, and hands the allocator back.
    pub fn free(self) -> (r: A)
        requires
            self.wf(),
        ensures
            deallocs(self.allocator(), r,
                released(self.tables_spec(), self.entries_spec(), table_index(self.tables_spec(), self.pml4_spec()), 4)),
    {
        let mut map = self;
        let root = map.root();
        map.free_pml4(root);
        map.page_allocator
    }
}

} // verus!
