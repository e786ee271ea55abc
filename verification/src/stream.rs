//! An in-memory byte source with a cursor, the decoder's input.
//!
//! The protocol's multi-byte integers are big-endian; the spec functions
//! `be16`, `be24` and `be32` give the value such a read denotes.

use vstd::prelude::*;

verus! {

/// Mathematical view of a `ByteStream`: the whole input and the cursor.
pub struct StreamView {
    pub data: Seq<u8>,
    pub pos: int,
}

/// Value of the big-endian 16-bit integer at `data[pos..pos + 2]`.
pub open spec fn be16(data: Seq<u8>, pos: int) -> int {
    data[pos] * 0x100 + data[pos + 1]
}

/// Value of the big-endian 24-bit integer at `data[pos..pos + 3]`.
pub open spec fn be24(data: Seq<u8>, pos: int) -> int {
    data[pos] * 0x1_0000 + data[pos + 1] * 0x100 + data[pos + 2]
}

/// Value of the big-endian 32-bit integer at `data[pos..pos + 4]`.
pub open spec fn be32(data: Seq<u8>, pos: int) -> int {
    data[pos] * 0x100_0000 + data[pos + 1] * 0x1_0000 + data[pos + 2] * 0x100 + data[pos + 3]
}

/// A byte stream over an owned buffer. Reads yield `None` once the
/// requested bytes run past the end; a failed read consumes nothing.
pub struct ByteStream {
    data: Vec<u8>,
    pos: usize,
}

impl View for ByteStream {
    type V = StreamView;

    closed spec fn view(&self) -> StreamView {
        StreamView { data: self.data@, pos: self.pos as int }
    }
}

impl ByteStream {
    /// The cursor never runs past the end of the input.
    pub open spec fn wf(self) -> bool {
        0 <= self@.pos <= self@.data.len()
    }

    /// Bytes left to read.
    pub open spec fn remaining(self) -> int {
        self@.data.len() - self@.pos
    }

    pub fn new(data: Vec<u8>) -> (r: ByteStream)
        ensures
            r.wf(),
            r@.data == data@,
            r@.pos == 0,
    {
        ByteStream { data, pos: 0 }
    }

    pub fn read_u8(&mut self) -> (r: Option<u8>)
        requires
            old(self).wf(),
        ensures
            final(self).wf(),
            final(self)@.data == old(self)@.data,
            old(self).remaining() >= 1 ==> r == Some(old(self)@.data[old(self)@.pos])
                && final(self)@.pos == old(self)@.pos + 1,
            old(self).remaining() < 1 ==> r == None::<u8> && final(self)@ == old(self)@,
    {
        if self.pos < self.data.len() {
            let b = self.data[self.pos];
            self.pos = self.pos + 1;
            Some(b)
        } else {
            None
        }
    }

    pub fn read_u24_be(&mut self) -> (r: Option<usize>)
        requires
            old(self).wf(),
        ensures
            final(self).wf(),
            final(self)@.data == old(self)@.data,
            old(self).remaining() >= 3 ==> ({
                &&& r == Some(be24(old(self)@.data, old(self)@.pos) as usize)
                &&& final(self)@.pos == old(self)@.pos + 3
                &&& r.unwrap() < 0x100_0000
            }),
            old(self).remaining() < 3 ==> r == None::<usize> && final(self)@ == old(self)@,
    {
        if self.data.len() - self.pos >= 3 {
            let b0 = self.data[self.pos];
            let b1 = self.data[self.pos + 1];
            let b2 = self.data[self.pos + 2];
            self.pos = self.pos + 3;
            Some((b0 as usize) * 0x1_0000 + (b1 as usize) * 0x100 + (b2 as usize))
        } else {
            None
        }
    }

    pub fn read_u32_be(&mut self) -> (r: Option<u32>)
        requires
            old(self).wf(),
        ensures
            final(self).wf(),
            final(self)@.data == old(self)@.data,
            old(self).remaining() >= 4 ==> ({
                &&& r == Some(be32(old(self)@.data, old(self)@.pos) as u32)
                &&& final(self)@.pos == old(self)@.pos + 4
            }),
            old(self).remaining() < 4 ==> r == None::<u32> && final(self)@ == old(self)@,
    {
        if self.data.len() - self.pos >= 4 {
            let b0 = self.data[self.pos];
            let b1 = self.data[self.pos + 1];
            let b2 = self.data[self.pos + 2];
            let b3 = self.data[self.pos + 3];
            self.pos = self.pos + 4;
            Some(
                (b0 as u32) * 0x100_0000 + (b1 as u32) * 0x1_0000 + (b2 as u32) * 0x100
                    + (b3 as u32),
            )
        } else {
            None
        }
    }

    pub fn read_exact(&mut self, n: usize) -> (r: Option<Vec<u8>>)
        requires
            old(self).wf(),
        ensures
            final(self).wf(),
            final(self)@.data == old(self)@.data,
            old(self).remaining() >= n ==> ({
                &&& r.is_some()
                &&& r.unwrap()@ == old(self)@.data.subrange(
                    old(self)@.pos,
                    old(self)@.pos + n,
                )
                &&& final(self)@.pos == old(self)@.pos + n
            }),
            old(self).remaining() < n ==> r == None::<Vec<u8>> && final(self)@ == old(self)@,
    {
        if self.data.len() - self.pos >= n {
            let mut out: Vec<u8> = Vec::new();
            let mut i: usize = 0;
            while i < n
                invariant
                    i <= n,
                    self.pos + n <= self.data.len(),
                    out@ == self.data@.subrange(self.pos as int, self.pos + i),
                decreases n - i,
            {
                out.push(self.data[self.pos + i]);
                proof {
                    assert(out@ =~= self.data@.subrange(self.pos as int, self.pos + i + 1));
                }
                i = i + 1;
            }
            self.pos = self.pos + n;
            Some(out)
        } else {
            None
        }
    }

    /// Discard `n` bytes; reports whether they were there to discard.
    pub fn skip(&mut self, n: usize) -> (r: bool)
        requires
            old(self).wf(),
        ensures
            final(self).wf(),
            final(self)@.data == old(self)@.data,
            old(self).remaining() >= n ==> r && final(self)@.pos == old(self)@.pos + n,
            old(self).remaining() < n ==> !r && final(self)@ == old(self)@,
    {
        if self.data.len() - self.pos >= n {
            self.pos = self.pos + n;
            true
        } else {
            false
        }
    }
}

} // verus!
