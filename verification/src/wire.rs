//! Little-endian views of a byte sequence, and the frame predicate of an
//! in-place store. Everything on the wire is little-endian; these spec
//! functions are the vocabulary of every contract that talks about bytes.
use vstd::prelude::*;

verus! {

/// Four-character chunk tags, read as little-endian 32-bit words.
pub const RIFF_TAG: u32 = 0x4646_4952;

pub const RF64_TAG: u32 = 0x3436_4652;

pub const WAVE_TAG: u32 = 0x4556_4157;

pub const DS64_TAG: u32 = 0x3436_7364;

pub const FMT_TAG: u32 = 0x2074_6d66;

pub const DATA_TAG: u32 = 0x6174_6164;

/// The 32-bit size value RF64 stores where the real size lives elsewhere.
pub const SIZE_SENTINEL: u32 = 0xFFFF_FFFF;

/// The unsigned value of the two little-endian bytes at `i`.
pub open spec fn le16_at(s: Seq<u8>, i: int) -> int {
    s[i] + 0x100 * s[i + 1]
}

/// The unsigned value of the four little-endian bytes at `i`.
pub open spec fn le32_at(s: Seq<u8>, i: int) -> int {
    le16_at(s, i) + 0x1_0000 * le16_at(s, i + 2)
}

/// The unsigned value of the eight little-endian bytes at `i`.
pub open spec fn le64_at(s: Seq<u8>, i: int) -> int {
    le32_at(s, i) + 0x1_0000_0000 * le32_at(s, i + 4)
}

/// How a store of `k` bytes at offset `at` relates the sink's bytes before
/// and after: every offset outside `[at, at + k)` keeps its old byte, a gap
/// between the old end and `at` is zero-filled, and the sink never shrinks.
pub open spec fn stored(pre: Seq<u8>, post: Seq<u8>, at: int, k: int) -> bool {
    &&& post.len() == if k > 0 && at + k > pre.len() {
        at + k
    } else {
        pre.len() as int
    }
    &&& forall|i: int|
        0 <= i < post.len() && !(at <= i < at + k) ==> post[i] == (if i < pre.len() {
            pre[i]
        } else {
            0u8
        })
}

} // verus!
