//! A forward-only cursor over a byte buffer.

use vstd::prelude::*;
use vstd::slice::slice_subrange;

verus! {

/// What a cursor is, mathematically: the whole buffer and how far into it
/// the cursor has advanced.
pub struct CursorView {
    pub bytes: Seq<u8>,
    pub position: nat,
}

impl CursorView {
    /// The number of bytes that have not been consumed yet.
    pub open spec fn remaining(self) -> int {
        self.bytes.len() - self.position
    }

    /// The same buffer, `n` bytes further on.
    pub open spec fn advance(self, n: int) -> CursorView {
        CursorView { bytes: self.bytes, position: (self.position + n) as nat }
    }
}

/// A forward-only reader over a borrowed byte buffer. It never copies the
/// bytes it walks over and never moves backwards.
pub struct ByteCursor<'a> {
    data: &'a [u8],
    pos: usize,
}

impl<'a> View for ByteCursor<'a> {
    type V = CursorView;

    closed spec fn view(&self) -> CursorView {
        CursorView { bytes: self.data@, position: self.pos as nat }
    }
}

impl<'a> ByteCursor<'a> {
    /// The position never lies beyond the end of the buffer.
    #[verifier::type_invariant]
    pub open spec fn in_bounds(&self) -> bool {
        self@.position <= self@.bytes.len()
    }

    /// A cursor at the start of `data`.
    pub fn new(data: &'a [u8]) -> (cursor: Self)
        ensures
            cursor@ == (CursorView { bytes: data@, position: 0 }),
    {
        ByteCursor { data, pos: 0 }
    }

    /// The number of bytes consumed so far.
    pub fn position(&self) -> (pos: usize)
        ensures
            pos == self@.position,
            pos <= self@.bytes.len(),
    {
        proof {
            use_type_invariant(self);
        }
        self.pos
    }

    /// The number of bytes left to read.
    pub fn remaining(&self) -> (left: usize)
        ensures
            left == self@.remaining(),
    {
        proof {
            use_type_invariant(self);
        }
        self.data.len() - self.pos
    }

    /// Hands out the next `n` bytes and moves past them, or leaves the
    /// cursor where it is when fewer than `n` bytes are left.
    pub fn take(&mut self, n: usize) -> (taken: Option<&'a [u8]>)
        ensures
            match taken {
                Some(bytes) => {
                    &&& n <= old(self)@.remaining()
                    &&& bytes@ == old(self)@.bytes.subrange(
                        old(self)@.position as int,
                        old(self)@.position + n,
                    )
                    &&& final(self)@ == old(self)@.advance(n as int)
                },
                None => n > old(self)@.remaining() && final(self)@ == old(self)@,
            },
    {
        proof {
            use_type_invariant(&*self);
        }
        if n > self.data.len() - self.pos {
            return None;
        }
        let start: usize = self.pos;
        let bytes = slice_subrange(self.data, start, start + n);
        self.pos = start + n;
        Some(bytes)
    }

    /// Moves past the next `n` bytes without looking at them. Returns
    /// `false`, and leaves the cursor where it is, when fewer than `n`
    /// bytes are left.
    pub fn skip(&mut self, n: u64) -> (skipped: bool)
        ensures
            skipped <==> n <= old(self)@.remaining(),
            skipped ==> final(self)@ == old(self)@.advance(n as int),
            !skipped ==> final(self)@ == old(self)@,
    {
        proof {
            use_type_invariant(&*self);
        }
        let left: usize = self.data.len() - self.pos;
        if n > left as u64 {
            return false;
        }
        self.pos = self.pos + n as usize;
        true
    }
}

} // verus!
