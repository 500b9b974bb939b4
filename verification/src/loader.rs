//! The read-side byte cursor: a position over an immutable byte buffer,
//! with bounded seeking and fixed-width little-endian loads. Every
//! operation either completes exactly as stated or fails without moving.
use vstd::prelude::*;
use crate::wire::{le16_at, le32_at, le64_at};

verus! {

/// A cursor over a byte buffer. The cursor never leaves `[0, len]`.
pub struct Loader {
    pub data: Vec<u8>,
    pub pos: usize,
}

impl Loader {
    /// The cursor is within the buffer (one past the last byte is allowed).
    pub open spec fn wf(&self) -> bool {
        self.pos <= self.data.len()
    }

    pub fn from(data: Vec<u8>) -> (r: Loader)
        ensures
            r.wf(),
            r.data@ == data@,
            r.pos == 0,
    {
        Loader { data, pos: 0 }
    }

    pub fn pos(&self) -> (r: usize)
        ensures
            r == self.pos,
    {
        self.pos
    }

    pub fn len(&self) -> (r: usize)
        ensures
            r == self.data@.len(),
    {
        self.data.len()
    }

    /// Succeeds exactly when the cursor stands at the end of the buffer.
    pub fn end(&self) -> (r: Option<()>)
        ensures
            r is Some <==> self.pos == self.data@.len(),
    {
        if self.pos == self.data.len() {
            Some(())
        } else {
            None
        }
    }

    /// Moves the cursor forward by `n` bytes; fails without moving if that
    /// would pass the end of the buffer.
    pub fn skip(&mut self, n: usize) -> (r: Option<()>)
        requires
            old(self).wf(),
        ensures
            final(self).wf(),
            final(self).data@ == old(self).data@,
            r is Some <==> old(self).pos + n <= old(self).data@.len(),
            r is Some ==> final(self).pos == old(self).pos + n,
            r is None ==> final(self).pos == old(self).pos,
    {
        if n <= self.data.len() - self.pos {
            self.pos = self.pos + n;
            Some(())
        } else {
            None
        }
    }

    /// Moves the cursor backward by `n` bytes; fails without moving if that
    /// would pass the start of the buffer.
    pub fn rewind(&mut self, n: usize) -> (r: Option<()>)
        requires
            old(self).wf(),
        ensures
            final(self).wf(),
            final(self).data@ == old(self).data@,
            r is Some <==> n <= old(self).pos,
            r is Some ==> final(self).pos == old(self).pos - n,
            r is None ==> final(self).pos == old(self).pos,
    {
        if n <= self.pos {
            self.pos = self.pos - n;
            Some(())
        } else {
            None
        }
    }

    /// Places the cursor at absolute offset `n`; fails without moving if
    /// `n` lies past the end of the buffer.
    pub fn seek(&mut self, n: usize) -> (r: Option<()>)
        requires
            old(self).wf(),
        ensures
            final(self).wf(),
            final(self).data@ == old(self).data@,
            r is Some <==> n <= old(self).data@.len(),
            r is Some ==> final(self).pos == n,
            r is None ==> final(self).pos == old(self).pos,
    {
        if n <= self.data.len() {
            self.pos = n;
            Some(())
        } else {
            None
        }
    }

    /// Fills all of `to` with the bytes at the cursor and advances past
    /// them; fails without moving (and without touching `to`) if fewer than
    /// `to.len()` bytes remain.
    pub fn load_to(&mut self, to: &mut Vec<u8>) -> (r: Option<()>)
        requires
            old(self).wf(),
        ensures
            final(self).wf(),
            final(self).data@ == old(self).data@,
            r is Some <==> old(self).pos + old(to)@.len() <= old(self).data@.len(),
            r is Some ==> {
                &&& final(self).pos == old(self).pos + old(to)@.len()
                &&& final(to)@ == old(self).data@.subrange(
                    old(self).pos as int,
                    old(self).pos + old(to)@.len(),
                )
            },
            r is None ==> final(self).pos == old(self).pos && final(to)@ == old(to)@,
    {
        let n = to.len();
        let dlen = self.data.len();
        if n <= dlen - self.pos {
            let mut i: usize = 0;
            while i < n
                invariant
                    i <= n,
                    to@.len() == n,
                    old(to)@.len() == n,
                    self.pos == old(self).pos,
                    self.data@ == old(self).data@,
                    self.pos + n <= dlen,
                    dlen == self.data@.len(),
                    forall|j: int| 0 <= j < i ==> to@[j] == self.data@[self.pos + j],
                    forall|j: int| i <= j < n ==> to@[j] == old(to)@[j],
                decreases n - i,
            {
                let b = self.data[self.pos + i];
                to.set(i, b);
                i = i + 1;
            }
            proof {
                assert(to@ =~= self.data@.subrange(self.pos as int, self.pos + n));
            }
            self.pos = self.pos + n;
            Some(())
        } else {
            None
        }
    }

    /// Loads the byte at the cursor and advances past it.
    pub fn load_u8(&mut self) -> (r: Option<u8>)
        requires
            old(self).wf(),
        ensures
            final(self).wf(),
            final(self).data@ == old(self).data@,
            r is Some <==> old(self).pos + 1 <= old(self).data@.len(),
            r is Some ==> final(self).pos == old(self).pos + 1 && r.unwrap() == old(
                self,
            ).data@[old(self).pos as int],
            r is None ==> final(self).pos == old(self).pos,
    {
        if self.pos < self.data.len() {
            let b = self.data[self.pos];
            self.pos = self.pos + 1;
            Some(b)
        } else {
            None
        }
    }

    /// Loads the two little-endian bytes at the cursor and advances past
    /// them.
    pub fn load_u16(&mut self) -> (r: Option<u16>)
        requires
            old(self).wf(),
        ensures
            final(self).wf(),
            final(self).data@ == old(self).data@,
            r is Some <==> old(self).pos + 2 <= old(self).data@.len(),
            r is Some ==> final(self).pos == old(self).pos + 2 && r.unwrap() == le16_at(
                old(self).data@,
                old(self).pos as int,
            ),
            r is None ==> final(self).pos == old(self).pos,
    {
        if 2 <= self.data.len() - self.pos {
            let b0 = self.data[self.pos];
            let b1 = self.data[self.pos + 1];
            self.pos = self.pos + 2;
            Some(b0 as u16 + 0x100 * b1 as u16)
        } else {
            None
        }
    }

    /// Loads the four little-endian bytes at the cursor and advances past
    /// them.
    pub fn load_u32(&mut self) -> (r: Option<u32>)
        requires
            old(self).wf(),
        ensures
            final(self).wf(),
            final(self).data@ == old(self).data@,
            r is Some <==> old(self).pos + 4 <= old(self).data@.len(),
            r is Some ==> final(self).pos == old(self).pos + 4 && r.unwrap() == le32_at(
                old(self).data@,
                old(self).pos as int,
            ),
            r is None ==> final(self).pos == old(self).pos,
    {
        if 4 <= self.data.len() - self.pos {
            let b0 = self.data[self.pos];
            let b1 = self.data[self.pos + 1];
            let b2 = self.data[self.pos + 2];
            let b3 = self.data[self.pos + 3];
            self.pos = self.pos + 4;
            Some(
                b0 as u32 + 0x100 * b1 as u32 + 0x1_0000 * b2 as u32 + 0x100_0000 * b3 as u32,
            )
        } else {
            None
        }
    }

    /// Loads the eight little-endian bytes at the cursor and advances past
    /// them.
    pub fn load_u64(&mut self) -> (r: Option<u64>)
        requires
            old(self).wf(),
        ensures
            final(self).wf(),
            final(self).data@ == old(self).data@,
            r is Some <==> old(self).pos + 8 <= old(self).data@.len(),
            r is Some ==> final(self).pos == old(self).pos + 8 && r.unwrap() == le64_at(
                old(self).data@,
                old(self).pos as int,
            ),
            r is None ==> final(self).pos == old(self).pos,
    {
        if 8 <= self.data.len() - self.pos {
            let lo = self.load_u32();
            let hi = self.load_u32();
            let lo = lo.unwrap() as u64;
            let hi = hi.unwrap() as u64;
            Some(lo + 0x1_0000_0000 * hi)
        } else {
            None
        }
    }
}

} // verus!
