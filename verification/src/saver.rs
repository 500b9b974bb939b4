//! The write-side byte cursor: a position over a growable byte buffer.
//! Stores overwrite in place, extend the buffer when they pass its end,
//! and zero-fill any gap a forward seek left behind; the cursor itself may
//! stand past the end of what has been materialized so far.
use vstd::prelude::*;
use crate::wire::{le16_at, le32_at, le64_at, stored};
use crate::sample::le_bytes;

verus! {

/// A cursor over a growable byte buffer.
pub struct Saver {
    pub data: Vec<u8>,
    pub pos: usize,
}

/// Composing a store of `k1` bytes at `at` with a store of `k2` bytes
/// right after it is one store of `k1 + k2` bytes, and the second store
/// leaves the first store's bytes in place.
pub proof fn lemma_stored_chain(d0: Seq<u8>, d1: Seq<u8>, d2: Seq<u8>, at: int, k1: int, k2: int)
    requires
        0 <= at,
        0 <= k1,
        0 <= k2,
        stored(d0, d1, at, k1),
        stored(d1, d2, at + k1, k2),
    ensures
        stored(d0, d2, at, k1 + k2),
        forall|i: int| at <= i < at + k1 ==> d2[i] == d1[i],
{
    assert forall|i: int| 0 <= i < d2.len() && !(at <= i < at + k1 + k2) implies d2[i] == (if i
        < d0.len() {
        d0[i]
    } else {
        0u8
    }) by {
        assert(d2[i] == (if i < d1.len() {
            d1[i]
        } else {
            0u8
        }));
    }
}

impl Saver {
    pub fn to(data: Vec<u8>) -> (r: Saver)
        ensures
            r.data@ == data@,
            r.pos == 0,
    {
        Saver { data, pos: 0 }
    }

    pub fn pos(&self) -> (r: usize)
        ensures
            r == self.pos,
    {
        self.pos
    }

    pub fn len(&self) -> (r: usize)
        ensures
            r == self.data@.len(),
    {
        self.data.len()
    }

    /// Hands the buffer back; what was written is the file.
    pub fn into_bytes(self) -> (r: Vec<u8>)
        ensures
            r@ == self.data@,
    {
        self.data
    }

    /// Moves the cursor forward by `n` bytes without writing anything.
    pub fn skip(&mut self, n: usize) -> (r: Option<()>)
        requires
            old(self).pos + n <= usize::MAX,
        ensures
            r is Some,
            final(self).data@ == old(self).data@,
            final(self).pos == old(self).pos + n,
    {
        self.pos = self.pos + n;
        Some(())
    }

    /// Moves the cursor backward by `n` bytes; fails without moving if that
    /// would pass the start of the buffer.
    pub fn rewind(&mut self, n: usize) -> (r: Option<()>)
        ensures
            final(self).data@ == old(self).data@,
            r is Some <==> n <= old(self).pos,
            r is Some ==> final(self).pos == old(self).pos - n,
            r is None ==> final(self).pos == old(self).pos,
    {
        if n <= self.pos {
            self.pos = self.pos - n;
            Some(())
        } else {
            None
        }
    }

    /// Places the cursor at absolute offset `n`; a position past the end of
    /// the buffer is allowed and is materialized by the next store.
    pub fn seek(&mut self, n: usize) -> (r: Option<()>)
        ensures
            r is Some,
            final(self).data@ == old(self).data@,
            final(self).pos == n,
    {
        self.pos = n;
        Some(())
    }

    /// Stores one byte at the cursor and advances past it, zero-filling
    /// any gap between the end of the buffer and the cursor.
    pub fn save_u8(&mut self, v: u8)
        requires
            old(self).pos < usize::MAX,
        ensures
            final(self).pos == old(self).pos + 1,
            stored(old(self).data@, final(self).data@, old(self).pos as int, 1),
            final(self).data@[old(self).pos as int] == v,
    {
        if self.pos < self.data.len() {
            self.data.set(self.pos, v);
        } else {
            while self.data.len() < self.pos
                invariant
                    self.pos == old(self).pos,
                    self.pos < usize::MAX,
                    old(self).data@.len() <= self.data@.len() <= self.pos,
                    forall|i: int|
                        0 <= i < self.data@.len() ==> self.data@[i] == (if i < old(
                            self,
                        ).data@.len() {
                            old(self).data@[i]
                        } else {
                            0u8
                        }),
                decreases self.pos - self.data@.len(),
            {
                self.data.push(0u8);
            }
            self.data.push(v);
        }
        self.pos = self.pos + 1;
    }

    /// Stores a 16-bit value as two little-endian bytes at the cursor.
    pub fn save_u16(&mut self, v: u16)
        requires
            old(self).pos + 2 <= usize::MAX,
        ensures
            final(self).pos == old(self).pos + 2,
            stored(old(self).data@, final(self).data@, old(self).pos as int, 2),
            final(self).data@.subrange(old(self).pos as int, old(self).pos + 2) == le_bytes(
                v as int,
                2,
            ),
            le16_at(final(self).data@, old(self).pos as int) == v,
    {
        let ghost d0 = self.data@;
        let ghost at = self.pos as int;
        self.save_u8((v % 0x100) as u8);
        let ghost d1 = self.data@;
        self.save_u8((v / 0x100) as u8);
        proof {
            lemma_stored_chain(d0, d1, self.data@, at, 1, 1);
            reveal_with_fuel(le_bytes, 3);
            assert(self.data@.subrange(at, at + 2) =~= le_bytes(v as int, 2));
        }
    }

    /// Stores a 32-bit value as four little-endian bytes at the cursor.
    pub fn save_u32(&mut self, v: u32)
        requires
            old(self).pos + 4 <= usize::MAX,
        ensures
            final(self).pos == old(self).pos + 4,
            stored(old(self).data@, final(self).data@, old(self).pos as int, 4),
            final(self).data@.subrange(old(self).pos as int, old(self).pos + 4) == le_bytes(
                v as int,
                4,
            ),
            le32_at(final(self).data@, old(self).pos as int) == v,
    {
        let ghost d0 = self.data@;
        let ghost at = self.pos as int;
        self.save_u16((v % 0x1_0000) as u16);
        let ghost d1 = self.data@;
        self.save_u16((v / 0x1_0000) as u16);
        proof {
            lemma_stored_chain(d0, d1, self.data@, at, 2, 2);
            reveal_with_fuel(le_bytes, 5);
            assert(self.data@.subrange(at, at + 4) =~= le_bytes(v as int, 4));
        }
    }

    /// Stores a 64-bit value as eight little-endian bytes at the cursor.
    #[verifier::rlimit(50)]
    pub fn save_u64(&mut self, v: u64)
        requires
            old(self).pos + 8 <= usize::MAX,
        ensures
            final(self).pos == old(self).pos + 8,
            stored(old(self).data@, final(self).data@, old(self).pos as int, 8),
            final(self).data@.subrange(old(self).pos as int, old(self).pos + 8) == le_bytes(
                v as int,
                8,
            ),
            le64_at(final(self).data@, old(self).pos as int) == v,
    {
        let ghost d0 = self.data@;
        let ghost at = self.pos as int;
        let q1 = v / 0x100;
        let q2 = q1 / 0x100;
        let q3 = q2 / 0x100;
        let q4 = q3 / 0x100;
        let q5 = q4 / 0x100;
        let q6 = q5 / 0x100;
        let q7 = q6 / 0x100;
        self.save_u8((v % 0x100) as u8);
        let ghost d1 = self.data@;
        self.save_u8((q1 % 0x100) as u8);
        proof {
            lemma_stored_chain(d0, d1, self.data@, at, 1, 1);
        }
        let ghost d2 = self.data@;
        self.save_u8((q2 % 0x100) as u8);
        proof {
            lemma_stored_chain(d0, d2, self.data@, at, 2, 1);
        }
        let ghost d3 = self.data@;
        self.save_u8((q3 % 0x100) as u8);
        proof {
            lemma_stored_chain(d0, d3, self.data@, at, 3, 1);
        }
        let ghost d4 = self.data@;
        self.save_u8((q4 % 0x100) as u8);
        proof {
            lemma_stored_chain(d0, d4, self.data@, at, 4, 1);
        }
        let ghost d5 = self.data@;
        self.save_u8((q5 % 0x100) as u8);
        proof {
            lemma_stored_chain(d0, d5, self.data@, at, 5, 1);
        }
        let ghost d6 = self.data@;
        self.save_u8((q6 % 0x100) as u8);
        proof {
            lemma_stored_chain(d0, d6, self.data@, at, 6, 1);
        }
        let ghost d7 = self.data@;
        self.save_u8((q7 % 0x100) as u8);
        proof {
            lemma_stored_chain(d0, d7, self.data@, at, 7, 1);
            reveal_with_fuel(le_bytes, 9);
            assert(q7 % 0x100 == q7);
            assert(self.data@.subrange(at, at + 8) =~= le_bytes(v as int, 8));
            assert(le64_at(self.data@, at) == v);
        }
    }
}

} // verus!
