//! A read position over a byte buffer.
use vstd::prelude::*;
use vstd::bytes::{spec_u16_from_le_bytes, spec_u32_from_le_bytes, spec_u64_from_le_bytes, u16_from_le_bytes, u32_from_le_bytes, u64_from_le_bytes};

verus! {

/// The 16-bit value stored at `s[i..i + 2]` in the byte order of x86-64 (little-endian).
pub open spec fn u16_at(s: Seq<u8>, i: int) -> u16 {
    spec_u16_from_le_bytes(s.subrange(i, i + 2))
}

/// The 32-bit value stored at `s[i..i + 4]` (little-endian).
pub open spec fn u32_at(s: Seq<u8>, i: int) -> u32 {
    spec_u32_from_le_bytes(s.subrange(i, i + 4))
}

/// The 64-bit value stored at `s[i..i + 8]` (little-endian).
pub open spec fn u64_at(s: Seq<u8>, i: int) -> u64 {
    spec_u64_from_le_bytes(s.subrange(i, i + 8))
}

/// A read position over a borrowed byte buffer. The position never passes the end.
#[derive(Debug)]
pub struct Cursor<'a> {
    buffer: &'a [u8],
    pos: usize,
}

impl<'a> Cursor<'a> {
    #[verifier::type_invariant]
    spec fn within_buffer(self) -> bool {
        self.pos <= self.buffer@.len()
    }

    /// The bytes under the cursor.
    pub closed spec fn data(self) -> Seq<u8> {
        self.buffer@
    }

    /// The read position.
    pub closed spec fn pos(self) -> nat {
        self.pos as nat
    }

    /// The number of bytes not yet read.
    pub open spec fn remaining_spec(self) -> int {
        self.data().len() - self.pos()
    }

    /// A cursor at the start of `buffer`.
    pub fn new(buffer: &'a [u8]) -> (r: Self)
        ensures
            r.data() == buffer@,
            r.pos() == 0,
    {
        Self { buffer, pos: 0 }
    }

    /// The read position.
    pub fn position(&self) -> (r: usize)
        ensures
            r == self.pos(),
    {
        self.pos
    }

    /// The number of bytes after the read position.
    pub fn remaining(&self) -> (r: usize)
        ensures
            r == self.remaining_spec(),
            r + self.pos() == self.data().len(),
    {
        proof {
            use_type_invariant(self);
        }
        self.buffer.len() - self.pos
    }

    /// Moves the position `n` bytes forward.
    pub fn skip(&mut self, n: usize)
        requires
            n <= old(self).remaining_spec(),
        ensures
            final(self).data() == old(self).data(),
            final(self).pos() == old(self).pos() + n,
    {
        proof {
            use_type_invariant(&*self);
        }
        let _len = self.buffer.len();
        self.pos = self.pos + n;
    }

    /// The byte `n` places after the position, without moving.
    pub fn peek_u8(&self, n: usize) -> (r: u8)
        requires
            n < self.remaining_spec(),
        ensures
            r == self.data()[self.pos() + n],
    {
        proof {
            use_type_invariant(self);
        }
        let _len = self.buffer.len();
        self.buffer[self.pos + n]
    }

    /// Reads one byte.
    pub fn read_u8(&mut self) -> (r: u8)
        requires
            1 <= old(self).remaining_spec(),
        ensures
            r == old(self).data()[old(self).pos() as int],
            final(self).data() == old(self).data(),
            final(self).pos() == old(self).pos() + 1,
    {
        proof {
            use_type_invariant(&*self);
        }
        let x = self.buffer[self.pos];
        self.pos = self.pos + 1;
        x
    }

    /// Fills `buffer` with the next `buffer.len()` bytes.
    pub fn read(&mut self, buffer: &mut [u8])
        requires
            old(buffer)@.len() <= old(self).remaining_spec(),
        ensures
            final(buffer)@ == old(self).data().subrange(old(self).pos() as int, old(self).pos() + old(buffer)@.len() as int),
            final(self).data() == old(self).data(),
            final(self).pos() == old(self).pos() + old(buffer)@.len(),
    {
        proof {
            use_type_invariant(&*self);
        }
        let n = buffer.len();
        let _len = self.buffer.len();
        let mut i: usize = 0;
        while i < n
            invariant
                n == buffer@.len(),
                n == old(buffer)@.len(),
                i <= n,
                self.pos + n <= self.buffer@.len(),
                _len == self.buffer@.len(),
                forall|k: int| 0 <= k < i ==> buffer@[k] == self.buffer@[self.pos + k],
            decreases n - i,
        {
            buffer[i] = self.buffer[self.pos + i];
            i += 1;
        }
        proof {
            assert(buffer@ =~= self.buffer@.subrange(self.pos as int, self.pos + n));
        }
        self.pos = self.pos + n;
    }

    /// The next `count` bytes, moving the position past them.
    pub fn read_bytes(&mut self, count: usize) -> (r: &'a [u8])
        requires
            count <= old(self).remaining_spec(),
        ensures
            r@ == old(self).data().subrange(old(self).pos() as int, old(self).pos() + count),
            final(self).data() == old(self).data(),
            final(self).pos() == old(self).pos() + count,
    {
        proof {
            use_type_invariant(&*self);
        }
        let _len = self.buffer.len();
        let res = &self.buffer[self.pos..self.pos + count];
        self.pos = self.pos + count;
        res
    }

    fn take_bytes(&mut self, count: usize) -> (r: &'a [u8])
        requires
            count <= old(self).remaining_spec(),
        ensures
            r@ == old(self).data().subrange(old(self).pos() as int, old(self).pos() + count),
            final(self).data() == old(self).data(),
            final(self).pos() == old(self).pos() + count,
    {
        self.read_bytes(count)
    }

    /// Reads a 16-bit value in native (little-endian) byte order.
    pub fn read_u16(&mut self) -> (r: u16)
        requires
            2 <= old(self).remaining_spec(),
        ensures
            r == u16_at(old(self).data(), old(self).pos() as int),
            final(self).data() == old(self).data(),
            final(self).pos() == old(self).pos() + 2,
    {
        proof {
            use_type_invariant(&*self);
        }
        let b = self.take_bytes(2);
        u16_from_le_bytes(b)
    }

    /// Reads a 16-bit value. The bytes are taken in native order, as `read_u16` does.
    pub fn read_u16_le(&mut self) -> (r: u16)
        requires
            2 <= old(self).remaining_spec(),
        ensures
            r == u16_at(old(self).data(), old(self).pos() as int),
            final(self).data() == old(self).data(),
            final(self).pos() == old(self).pos() + 2,
    {
        self.read_u16()
    }

    /// Reads a 16-bit value. The bytes are taken in native order, as `read_u16` does,
    /// not in big-endian order.
    pub fn read_u16_be(&mut self) -> (r: u16)
        requires
            2 <= old(self).remaining_spec(),
        ensures
            r == u16_at(old(self).data(), old(self).pos() as int),
            final(self).data() == old(self).data(),
            final(self).pos() == old(self).pos() + 2,
    {
        self.read_u16()
    }

    /// Reads a 32-bit value in native (little-endian) byte order.
    pub fn read_u32(&mut self) -> (r: u32)
        requires
            4 <= old(self).remaining_spec(),
        ensures
            r == u32_at(old(self).data(), old(self).pos() as int),
            final(self).data() == old(self).data(),
            final(self).pos() == old(self).pos() + 4,
    {
        proof {
            use_type_invariant(&*self);
        }
        let b = self.take_bytes(4);
        u32_from_le_bytes(b)
    }

    /// Reads a 32-bit value in native order.
    pub fn read_u32_le(&mut self) -> (r: u32)
        requires
            4 <= old(self).remaining_spec(),
        ensures
            r == u32_at(old(self).data(), old(self).pos() as int),
            final(self).data() == old(self).data(),
            final(self).pos() == old(self).pos() + 4,
    {
        self.read_u32()
    }

    /// Reads a 32-bit value in native order, not in big-endian order.
    pub fn read_u32_be(&mut self) -> (r: u32)
        requires
            4 <= old(self).remaining_spec(),
        ensures
            r == u32_at(old(self).data(), old(self).pos() as int),
            final(self).data() == old(self).data(),
            final(self).pos() == old(self).pos() + 4,
    {
        self.read_u32()
    }

    /// Reads a 64-bit value in native (little-endian) byte order.
    pub fn read_u64(&mut self) -> (r: u64)
        requires
            8 <= old(self).remaining_spec(),
        ensures
            r == u64_at(old(self).data(), old(self).pos() as int),
            final(self).data() == old(self).data(),
            final(self).pos() == old(self).pos() + 8,
    {
        proof {
            use_type_invariant(&*self);
        }
        let b = self.take_bytes(8);
        u64_from_le_bytes(b)
    }

    /// Reads a 64-bit value in native order.
    pub fn read_u64_le(&mut self) -> (r: u64)
        requires
            8 <= old(self).remaining_spec(),
        ensures
            r == u64_at(old(self).data(), old(self).pos() as int),
            final(self).data() == old(self).data(),
            final(self).pos() == old(self).pos() + 8,
    {
        self.read_u64()
    }

    /// Reads a 64-bit value in native order, not in big-endian order.
    pub fn read_u64_be(&mut self) -> (r: u64)
        requires
            8 <= old(self).remaining_spec(),
        ensures
            r == u64_at(old(self).data(), old(self).pos() as int),
            final(self).data() == old(self).data(),
            final(self).pos() == old(self).pos() + 8,
    {
        self.read_u64()
    }
}

} // verus!
