//! The bootloader's heap: a bump allocator over a buffer of fixed size.
use vstd::prelude::*;

pub use crate::common::allocation::{AllocError, PageAllocator};
use crate::common::allocation::{bump, bump_allocate};

verus! {

/// A bump allocator over a buffer of `SIZE` bytes that it owns: it hands out offsets into
/// the buffer from the top downwards and never takes memory back.
#[derive(Debug)]
pub struct LinearAllocator<const SIZE: usize> {
    remaining: usize,
}

impl<const SIZE: usize> LinearAllocator<SIZE> {
    /// The number of bytes below the lowest allocation.
    pub closed spec fn remaining_spec(&self) -> usize {
        self.remaining
    }

    /// The allocator with its whole buffer free.
    pub fn new() -> (r: Self)
        ensures
            r.remaining_spec() == SIZE,
    {
        Self { remaining: SIZE }
    }

    /// Allocates `size` bytes aligned to `align` and gives their offset in the buffer; the
    /// allocation is below every earlier one. Fails, changing nothing, when `align` is over
    /// 4096 or the bytes left do not hold `size`.
    pub fn allocate(&mut self, size: usize, align: usize) -> (r: Result<usize, AllocError>)
        requires
            align > 0,
        ensures
            match bump(old(self).remaining_spec() as int, size as int, align as int) {
                Some(o) => r == Ok::<usize, AllocError>(o as usize) && final(self).remaining_spec() == o,
                None => r is Err && final(self).remaining_spec() == old(self).remaining_spec(),
            },
    {
        match bump_allocate(self.remaining, size, align) {
            Some(o) => {
                self.remaining = o;
                Ok(o)
            },
            None => Err(AllocError),
        }
    }

    /// Freeing does nothing.
    pub fn deallocate(&mut self, offset: usize, size: usize)
        ensures
            final(self).remaining_spec() == old(self).remaining_spec(),
    {
    }
}

} // verus!
