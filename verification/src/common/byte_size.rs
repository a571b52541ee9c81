//! Sizes in bytes and in bits.
use vstd::prelude::*;

verus! {

/// A size in bytes.
#[derive(Debug, Clone, Copy, PartialEq, Eq, PartialOrd, Ord)]
pub struct ByteSize<N>(N);

impl<N: Copy> ByteSize<N> {
    /// The number of bytes.
    pub closed spec fn bytes(&self) -> N {
        self.0
    }

    /// The size of `n` bytes.
    pub fn from_bytes(n: N) -> (r: Self)
        ensures
            r.bytes() == n,
    {
        Self(n)
    }

    /// The number of bytes.
    pub fn raw_bytes(&self) -> (r: N)
        ensures
            r == self.bytes(),
    {
        self.0
    }
}

/// A size in bits.
#[derive(Debug, Clone, Copy, PartialEq, Eq, Structural, PartialOrd, Ord)]
pub struct BitSize(pub usize);

} // verus!
