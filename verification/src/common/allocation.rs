//! Allocators that hand out memory from the top of a fixed region downwards and never take
//! it back.
use vstd::prelude::*;

verus! {

/// Largest alignment that the bump allocators serve.
pub const MAX_SUPPORTED_ALIGN: usize = 4096;

/// The allocation failed: the alignment is too large or the region too small.
#[derive(Debug, Clone, Copy, PartialEq, Eq, Structural)]
pub struct AllocError;

/// A source of whole 4 KiB pages.
pub trait PageAllocator {
    /// What `alloc_pages(pages)` called on `self` leaves in `after` and returns: each
    /// allocator may state its own; by default nothing is stated.
    open spec fn alloc_outcome(&self, after: &Self, pages: usize, r: u64) -> bool {
        true
    }

    /// The address of `pages` fresh contiguous pages, or 0 when there are none.
    fn alloc_pages(&mut self, pages: usize) -> (r: u64)
        ensures
            old(self).alloc_outcome(&*final(self), pages, r),
    ;

    /// What `dealloc_pages(address, pages)` called on `self` leaves in `after`: each
    /// allocator may state its own; by default nothing is stated.
    open spec fn dealloc_outcome(&self, after: &Self, address: u64, pages: usize) -> bool {
        true
    }

    /// Gives back `pages` pages at `address`.
    fn dealloc_pages(&mut self, address: u64, pages: usize)
        ensures
            old(self).dealloc_outcome(&*final(self), address, pages),
    ;
}

/// Where a bump allocation of `size` bytes aligned to `align` lands, with `remaining` bytes
/// left below the previous allocation: the highest offset at or below `remaining - size`
/// that is a multiple of `align`. `None` when the alignment is over the supported maximum
/// or the bytes left do not hold `size`.
pub open spec fn bump(remaining: int, size: int, align: int) -> Option<int> {
    if align > MAX_SUPPORTED_ALIGN || size > remaining {
        None
    } else {
        Some((remaining - size) - (remaining - size) % align)
    }
}

/// One bump allocation of `size` bytes aligned to `align`, taking the bytes left from
/// `before` to `after`: it gives the bump's offset and leaves exactly the bytes below it, or
/// gives nothing and leaves the bytes left as they were.
pub open spec fn bump_outcome(before: int, after: int, size: int, align: int, r: Option<int>) -> bool {
    match bump(before, size, align) {
        Some(o) => r == Some(o) && after == o,
        None => r is None && after == before,
    }
}

/// The offset that an allocation gave, if it succeeded.
pub open spec fn ok_offset(r: Result<usize, AllocError>) -> Option<int> {
    match r {
        Ok(o) => Some(o as int),
        Err(_) => None,
    }
}

/// One bump allocation from `remaining` bytes; the offset of the allocation, which is also
/// the new number of bytes left. For a power-of-two `align` the rounding down is the masking
/// of the offset's low bits.
pub fn bump_allocate(remaining: usize, size: usize, align: usize) -> (r: Option<usize>)
    requires
        align > 0,
    ensures
        r is Some <==> bump(remaining as int, size as int, align as int) is Some,
        r matches Some(o) ==> bump(remaining as int, size as int, align as int) == Some(o as int),
        r matches Some(o) ==> o + size <= remaining && o % align == 0,
{
    if align > MAX_SUPPORTED_ALIGN {
        return None;
    }
    if size > remaining {
        return None;
    }
    let rest: usize = remaining - size;
    proof {
        lemma_bump_below_and_aligned(remaining as int, size as int, align as int);
    }
    let allocated: usize = rest - rest % align;
    Some(allocated)
}

/// A bump allocator over a buffer of `SIZE` bytes that it owns: it hands out offsets into
/// the buffer from the top downwards.
#[derive(Debug)]
pub struct FixedBufferAllocator<const SIZE: usize> {
    remaining: usize,
}

impl<const SIZE: usize> FixedBufferAllocator<SIZE> {
    /// The number of bytes below the lowest allocation.
    pub closed spec fn remaining_spec(&self) -> usize {
        self.remaining
    }

    /// The allocator with its whole buffer free.
    pub fn new() -> (r: Self)
        ensures
            r.remaining_spec() == SIZE,
    {
        Self { remaining: SIZE }
    }

    /// The number of bytes below the lowest allocation.
    pub fn remaining(&self) -> (r: usize)
        ensures
            r == self.remaining_spec(),
    {
        self.remaining
    }

    /// Allocates `size` bytes aligned to `align` and gives their offset in the buffer; the
    /// allocation is below every earlier one. Fails, changing nothing, when `align` is over
    /// the supported maximum or the bytes left do not hold `size`.
    pub fn allocate(&mut self, size: usize, align: usize) -> (r: Result<usize, AllocError>)
        requires
            align > 0,
        ensures
            match bump(old(self).remaining_spec() as int, size as int, align as int) {
                Some(o) => r == Ok::<usize, AllocError>(o as usize) && final(self).remaining_spec() == o,
                None => r is Err && final(self).remaining_spec() == old(self).remaining_spec(),
            },
            bump_outcome(old(self).remaining_spec() as int, final(self).remaining_spec() as int, size as int,
                align as int, ok_offset(r)),
    {
        match bump_allocate(self.remaining, size, align) {
            Some(o) => {
                self.remaining = o;
                Ok(o)
            },
            None => Err(AllocError),
        }
    }

    /// Freeing does nothing.
    pub fn deallocate(&mut self, offset: usize, size: usize)
        ensures
            final(self).remaining_spec() == old(self).remaining_spec(),
    {
    }
}

/// The offset into the buffer at `base` of the address that an allocation gave, if it
/// succeeded.
pub open spec fn ok_address_offset(base: u64, r: Result<u64, AllocError>) -> Option<int> {
    match r {
        Ok(a) => Some(a - base),
        Err(_) => None,
    }
}

/// A bump allocator over a borrowed, page-aligned buffer at `base`: it hands out addresses
/// from the top of the buffer downwards.
#[derive(Debug)]
pub struct LinearAllocator {
    base: u64,
    size: usize,
    remaining: usize,
}

impl LinearAllocator {
    /// The address of the buffer.
    pub closed spec fn base_spec(&self) -> u64 {
        self.base
    }

    /// The size of the buffer.
    pub closed spec fn size_spec(&self) -> usize {
        self.size
    }

    /// The number of bytes below the lowest allocation.
    pub closed spec fn remaining_spec(&self) -> usize {
        self.remaining
    }

    /// The buffer fits in the address space and starts on a page boundary, and the bytes
    /// left are within it.
    pub open spec fn wf(&self) -> bool {
        &&& self.remaining_spec() <= self.size_spec()
        &&& self.base_spec() + self.size_spec() <= u64::MAX
        &&& self.base_spec() % 4096 == 0
    }

    /// The allocator over the buffer of `size` bytes at `base`, both multiples of 4096.
    pub fn new(base: u64, size: usize) -> (r: Self)
        requires
            size % 4096 == 0,
            base % 4096 == 0,
            base + size <= u64::MAX,
        ensures
            r.wf(),
            r.base_spec() == base,
            r.size_spec() == size,
            r.remaining_spec() == size,
    {
        Self { base, size, remaining: size }
    }

    /// The number of bytes below the lowest allocation.
    pub fn remaining(&self) -> (r: usize)
        ensures
            r == self.remaining_spec(),
    {
        self.remaining
    }

    /// Allocates `size` bytes aligned to `align` and gives their address; the allocation is
    /// below every earlier one. Fails, changing nothing, when `align` is over the supported
    /// maximum or the bytes left do not hold `size`.
    pub fn allocate(&mut self, size: usize, align: usize) -> (r: Result<u64, AllocError>)
        requires
            old(self).wf(),
            align > 0,
        ensures
            final(self).wf(),
            final(self).base_spec() == old(self).base_spec(),
            final(self).size_spec() == old(self).size_spec(),
            match bump(old(self).remaining_spec() as int, size as int, align as int) {
                Some(o) => r == Ok::<u64, AllocError>((old(self).base_spec() + o) as u64)
                    && final(self).remaining_spec() == o,
                None => r is Err && final(self).remaining_spec() == old(self).remaining_spec(),
            },
            bump_outcome(old(self).remaining_spec() as int, final(self).remaining_spec() as int, size as int,
                align as int, ok_address_offset(old(self).base_spec(), r)),
    {
        match bump_allocate(self.remaining, size, align) {
            Some(o) => {
                self.remaining = o;
                Ok(self.base + o as u64)
            },
            None => Err(AllocError),
        }
    }

    /// Freeing does nothing.
    pub fn deallocate(&mut self, address: u64, size: usize)
        ensures
            final(self).remaining_spec() == old(self).remaining_spec(),
            final(self).base_spec() == old(self).base_spec(),
            final(self).size_spec() == old(self).size_spec(),
    {
    }
}

/// A bump allocation lies below the bytes that were left, is aligned, and leaves exactly the
/// bytes below it: so each allocation lies below every earlier one, and no two overlap.
pub proof fn lemma_bump_below_and_aligned(remaining: int, size: int, align: int)
    requires
        0 <= remaining,
        0 <= size,
        0 < align,
        bump(remaining, size, align) is Some,
    ensures
        0 <= bump(remaining, size, align)->0,
        bump(remaining, size, align)->0 + size <= remaining,
        bump(remaining, size, align)->0 % align == 0,
{
    let x = remaining - size;
    vstd::arithmetic::div_mod::lemma_fundamental_div_mod(x, align);
    vstd::arithmetic::div_mod::lemma_mod_bound(x, align);
    vstd::arithmetic::div_mod::lemma_mod_multiples_basic(x / align, align);
    vstd::arithmetic::mul::lemma_mul_is_commutative(align, x / align);
}

/// Two successive bump allocations do not overlap: the second ends at or below the start
/// of the first.
pub proof fn lemma_successive_bumps_disjoint(remaining: int, size1: int, size2: int, align1: int, align2: int)
    requires
        0 <= remaining,
        0 <= size1,
        0 <= size2,
        0 < align1,
        0 < align2,
        bump(remaining, size1, align1) is Some,
        bump(bump(remaining, size1, align1)->0, size2, align2) is Some,
    ensures
        bump(bump(remaining, size1, align1)->0, size2, align2)->0 + size2 <= bump(remaining, size1, align1)->0,
{
    lemma_bump_below_and_aligned(remaining, size1, align1);
    lemma_bump_below_and_aligned(bump(remaining, size1, align1)->0, size2, align2);
}

/// A run of bump allocations: `rem` are the bytes left before each and after the last.
pub open spec fn bump_run(rem: Seq<int>, sizes: Seq<int>, aligns: Seq<int>, offs: Seq<Option<int>>) -> bool {
    &&& rem.len() == sizes.len() + 1
    &&& aligns.len() == sizes.len()
    &&& offs.len() == sizes.len()
    &&& rem[0] >= 0
    &&& forall|i: int| 0 <= i < sizes.len() ==> {
        &&& #[trigger] sizes[i] >= 0
        &&& aligns[i] > 0
        &&& bump_outcome(rem[i], rem[i + 1], sizes[i], aligns[i], offs[i])
    }
}

proof fn lemma_bump_run_shrinks(rem: Seq<int>, sizes: Seq<int>, aligns: Seq<int>, offs: Seq<Option<int>>, a: int, b: int)
    requires
        bump_run(rem, sizes, aligns, offs),
        0 <= a <= b <= sizes.len(),
    ensures
        0 <= rem[b] <= rem[a],
    decreases b - a,
{
    if a < b {
        lemma_bump_run_shrinks(rem, sizes, aligns, offs, a, b - 1);
        let i = b - 1;
        assert(sizes[i] >= 0);
        if bump(rem[i], sizes[i], aligns[i]) is Some {
            lemma_bump_below_and_aligned(rem[i], sizes[i], aligns[i]);
        }
    } else {
        lemma_bump_run_nonnegative(rem, sizes, aligns, offs, b);
    }
}

proof fn lemma_bump_run_nonnegative(rem: Seq<int>, sizes: Seq<int>, aligns: Seq<int>, offs: Seq<Option<int>>, b: int)
    requires
        bump_run(rem, sizes, aligns, offs),
        0 <= b <= sizes.len(),
    ensures
        0 <= rem[b],
    decreases b,
{
    if b > 0 {
        lemma_bump_run_nonnegative(rem, sizes, aligns, offs, b - 1);
        let i = b - 1;
        assert(sizes[i] >= 0);
        if bump(rem[i], sizes[i], aligns[i]) is Some {
            lemma_bump_below_and_aligned(rem[i], sizes[i], aligns[i]);
        }
    }
}

/// In any run of bump allocations, each allocation that succeeds lies within the bytes that
/// were left at the start, is aligned as asked, and lies wholly below every allocation that
/// succeeded before it: no two allocations share a byte.
pub proof fn lemma_bump_run_disjoint(rem: Seq<int>, sizes: Seq<int>, aligns: Seq<int>, offs: Seq<Option<int>>, j: int, k: int)
    requires
        bump_run(rem, sizes, aligns, offs),
        0 <= j < k < sizes.len(),
        offs[j] is Some,
        offs[k] is Some,
    ensures
        0 <= offs[k]->0,
        offs[k]->0 + sizes[k] <= offs[j]->0,
        offs[j]->0 + sizes[j] <= rem[0],
        offs[j]->0 % aligns[j] == 0,
        offs[k]->0 % aligns[k] == 0,
{
    assert(sizes[j] >= 0 && sizes[k] >= 0);
    lemma_bump_run_shrinks(rem, sizes, aligns, offs, 0, j);
    lemma_bump_run_shrinks(rem, sizes, aligns, offs, j + 1, k);
    lemma_bump_run_shrinks(rem, sizes, aligns, offs, 0, k);
    lemma_bump_below_and_aligned(rem[j], sizes[j], aligns[j]);
    lemma_bump_below_and_aligned(rem[k], sizes[k], aligns[k]);
}

/// Allocations from one fixed-buffer allocator never overlap and stay in its buffer: over
/// any run of allocations from a fresh allocator, an allocation that succeeds lies within
/// the `SIZE`-byte buffer, aligned as asked, and wholly below each earlier one that
/// succeeded.
pub proof fn lemma_fixed_buffer_allocations_disjoint<const SIZE: usize>(
    states: Seq<FixedBufferAllocator<SIZE>>,
    sizes: Seq<usize>,
    aligns: Seq<usize>,
    results: Seq<Result<usize, AllocError>>,
    j: int,
    k: int,
)
    requires
        states.len() == sizes.len() + 1,
        aligns.len() == sizes.len(),
        results.len() == sizes.len(),
        states[0].remaining_spec() == SIZE,
        forall|i: int| 0 <= i < sizes.len() ==> #[trigger] aligns[i] > 0 && bump_outcome(states[i].remaining_spec() as int,
            states[i + 1].remaining_spec() as int, sizes[i] as int, aligns[i] as int, ok_offset(results[i])),
        0 <= j < k < sizes.len(),
        results[j] is Ok,
        results[k] is Ok,
    ensures
        results[k]->Ok_0 + sizes[k] <= results[j]->Ok_0,
        results[j]->Ok_0 + sizes[j] <= SIZE,
        results[j]->Ok_0 % aligns[j] == 0,
        results[k]->Ok_0 % aligns[k] == 0,
{
    let rem = Seq::new(states.len(), |i: int| states[i].remaining_spec() as int);
    let sz = Seq::new(sizes.len(), |i: int| sizes[i] as int);
    let al = Seq::new(aligns.len(), |i: int| aligns[i] as int);
    let offs = Seq::new(results.len(), |i: int| ok_offset(results[i]));
    assert forall|i: int| 0 <= i < sz.len() implies {
        &&& #[trigger] sz[i] >= 0
        &&& al[i] > 0
        &&& bump_outcome(rem[i], rem[i + 1], sz[i], al[i], offs[i])
    } by {
        assert(aligns[i] > 0);
    }
    assert(bump_run(rem, sz, al, offs));
    lemma_bump_run_disjoint(rem, sz, al, offs, j, k);
}

/// Allocations from one linear allocator never overlap and stay in its buffer: over any run
/// of allocations from a fresh allocator, an address that an allocation gives lies, with
/// its bytes, within the buffer, aligned as asked relative to the buffer's start, and wholly
/// below each address given before it.
pub proof fn lemma_linear_allocations_disjoint(
    states: Seq<LinearAllocator>,
    sizes: Seq<usize>,
    aligns: Seq<usize>,
    results: Seq<Result<u64, AllocError>>,
    j: int,
    k: int,
)
    requires
        states.len() == sizes.len() + 1,
        aligns.len() == sizes.len(),
        results.len() == sizes.len(),
        states[0].remaining_spec() == states[0].size_spec(),
        forall|i: int| 0 <= i < sizes.len() ==> {
            &&& #[trigger] aligns[i] > 0
            &&& states[i + 1].base_spec() == states[0].base_spec()
            &&& bump_outcome(states[i].remaining_spec() as int, states[i + 1].remaining_spec() as int, sizes[i] as int,
                aligns[i] as int, ok_address_offset(states[0].base_spec(), results[i]))
        },
        0 <= j < k < sizes.len(),
        results[j] is Ok,
        results[k] is Ok,
    ensures
        results[k]->Ok_0 + sizes[k] <= results[j]->Ok_0,
        states[0].base_spec() <= results[j]->Ok_0,
        results[j]->Ok_0 + sizes[j] <= states[0].base_spec() + states[0].size_spec(),
        (results[j]->Ok_0 - states[0].base_spec()) % (aligns[j] as int) == 0,
        (results[k]->Ok_0 - states[0].base_spec()) % (aligns[k] as int) == 0,
{
    let base = states[0].base_spec();
    let rem = Seq::new(states.len(), |i: int| states[i].remaining_spec() as int);
    let sz = Seq::new(sizes.len(), |i: int| sizes[i] as int);
    let al = Seq::new(aligns.len(), |i: int| aligns[i] as int);
    let offs = Seq::new(results.len(), |i: int| ok_address_offset(base, results[i]));
    assert forall|i: int| 0 <= i < sz.len() implies {
        &&& #[trigger] sz[i] >= 0
        &&& al[i] > 0
        &&& bump_outcome(rem[i], rem[i + 1], sz[i], al[i], offs[i])
    } by {
        assert(aligns[i] > 0);
    }
    assert(bump_run(rem, sz, al, offs));
    lemma_bump_run_disjoint(rem, sz, al, offs, j, k);
}

proof fn lemma_mask_is_round_down(x: u64, k: u64)
    requires
        k <= 12,
    ensures
        x & !(((1u64 << k) - 1) as u64) == x - x % (1u64 << k),
        4096u64 % (1u64 << k) == 0,
        (1u64 << k) > 0,
{
    assert((1u64 << k) > 0 && 4096u64 & (((1u64 << k) - 1) as u64) == 0) by (bit_vector)
        requires k <= 12;
    let m: u64 = 1u64 << k;
    let y: u64 = (m - 1) as u64;
    vstd::bits::lemma_u64_pow2_no_overflow(k as nat);
    vstd::bits::lemma_u64_shl_is_mul(1, k);
    vstd::bits::lemma_u64_low_bits_mask_is_mod(x, k as nat);
    vstd::bits::lemma_u64_low_bits_mask_is_mod(4096, k as nat);
    assert(vstd::bits::low_bits_mask(k as nat) as u64 == y);
    assert(x & !y == x - (x & y)) by (bit_vector);
}

/// An allocation from a linear allocator with a power-of-two alignment of at most a page
/// lands on an address aligned to it, and leaves as the bytes below it the bytes that were
/// left less the size, with the bits below the alignment masked off.
pub proof fn lemma_linear_allocation_aligned(
    before: LinearAllocator,
    after: LinearAllocator,
    size: usize,
    k: u64,
    r: Result<u64, AllocError>,
)
    requires
        before.wf(),
        k <= 12,
        bump_outcome(before.remaining_spec() as int, after.remaining_spec() as int, size as int,
            (1u64 << k) as int, ok_address_offset(before.base_spec(), r)),
        r is Ok,
    ensures
        r->Ok_0 % (1u64 << k) == 0,
        after.remaining_spec() == ((before.remaining_spec() - size) as u64) & !(((1u64 << k) - 1) as u64),
        before.base_spec() <= r->Ok_0,
        r->Ok_0 + size <= before.base_spec() + before.remaining_spec(),
{
    let align = (1u64 << k) as int;
    lemma_mask_is_round_down((before.remaining_spec() - size) as u64, k);
    let o = bump(before.remaining_spec() as int, size as int, align)->0;
    lemma_bump_below_and_aligned(before.remaining_spec() as int, size as int, align);
    let base = before.base_spec() as int;
    vstd::arithmetic::div_mod::lemma_fundamental_div_mod(base, 4096);
    vstd::arithmetic::div_mod::lemma_fundamental_div_mod(4096, align);
    vstd::arithmetic::div_mod::lemma_fundamental_div_mod(o, align);
    let a = base / 4096;
    let b = 4096int / align;
    let c = o / align;
    assert(base + o == (a * b + c) * align) by (nonlinear_arith)
        requires base == 4096 * a, 4096 == align * b, o == align * c;
    vstd::arithmetic::div_mod::lemma_mod_multiples_basic(a * b + c, align);
}

} // verus!
