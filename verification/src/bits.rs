//! Bit-level facts shared by the register and descriptor encodings.
use vstd::prelude::*;

verus! {


/// Bit `i` of a 64-bit word is set.
pub open spec fn bit64(x: u64, i: u64) -> bool {
    x & (1u64 << i) != 0
}

/// Bit `i` of a 32-bit word is set.
pub open spec fn bit32(x: u32, i: u32) -> bool {
    x & (1u32 << i) != 0
}

/// Bit `i` of a byte is set.
pub open spec fn bit8(x: u8, i: u8) -> bool {
    x & (1u8 << i) != 0
}

/// Tests bit `i` of a 64-bit word.
pub fn test_bit64(x: u64, i: u64) -> (r: bool)
    requires
        i < 64,
    ensures
        r == bit64(x, i),
{
    x & (1u64 << i) != 0
}

/// Tests bit `i` of a 32-bit word.
pub fn test_bit32(x: u32, i: u32) -> (r: bool)
    requires
        i < 32,
    ensures
        r == bit32(x, i),
{
    x & (1u32 << i) != 0
}

/// Setting bit `i` sets it and leaves every other bit as it was.
pub proof fn lemma_bit64_set(x: u64, i: u64, j: u64)
    by (bit_vector)
    requires
        i < 64,
        j < 64,
    ensures
        bit64(x | (1u64 << i), j) == (i == j || bit64(x, j)),
{
}

/// Clearing bit `i` clears it and leaves every other bit as it was.
pub proof fn lemma_bit64_clear(x: u64, i: u64, j: u64)
    by (bit_vector)
    requires
        i < 64,
        j < 64,
    ensures
        bit64(x & !(1u64 << i), j) == (i != j && bit64(x, j)),
{
}

/// Setting bit `i` of a 32-bit word.
pub proof fn lemma_bit32_set(x: u32, i: u32, j: u32)
    by (bit_vector)
    requires
        i < 32,
        j < 32,
    ensures
        bit32(x | (1u32 << i), j) == (i == j || bit32(x, j)),
{
}

/// Clearing bit `i` of a 32-bit word.
pub proof fn lemma_bit32_clear(x: u32, i: u32, j: u32)
    by (bit_vector)
    requires
        i < 32,
        j < 32,
    ensures
        bit32(x & !(1u32 << i), j) == (i != j && bit32(x, j)),
{
}

/// Replacing the bits above the low twelve keeps the low twelve and yields the new high bits.
pub proof fn lemma_address_word(x: u64, a: u64, i: u64)
    by (bit_vector)
    requires
        i < 12,
    ensures
        ((x & 0xFFFu64) | (a & !0xFFFu64)) & !0xFFFu64 == a & !0xFFFu64,
        (((x & 0xFFFu64) | (a & !0xFFFu64)) & (1u64 << i) != 0) == (x & (1u64 << i) != 0),
        (a & !0xFFFu64) % 4096 == 0,
{
}

} // verus!
