//! Scalar samples as they stand on the wire, and the byte-level codec for
//! the six encodings. Integer encodings carry their two's-complement value;
//! the IEEE-float encodings carry their raw little-endian bit pattern, so
//! that the numeric conversion to a normalized float can live outside the
//! library while every byte of the wire format stays specified here.
use vstd::prelude::*;
use crate::format::SampleFmt;
use crate::wire::{le16_at, le32_at, le64_at};

verus! {

/// One decoded scalar sample, in the integer carrier of its encoding.
/// `F32` and `F64` hold raw IEEE-754 bit patterns, passed through unscaled.
#[derive(Clone, Copy, Debug, PartialEq, Eq, Structural)]
pub enum Sample {
    U8(u8),
    I16(i16),
    I24(i32),
    I32(i32),
    F32(u32),
    F64(u64),
}

impl Sample {
    /// The encoding a sample value belongs to.
    pub open spec fn fmt_of(&self) -> SampleFmt {
        match self {
            Sample::U8(_) => SampleFmt::U8,
            Sample::I16(_) => SampleFmt::I16,
            Sample::I24(_) => SampleFmt::I24,
            Sample::I32(_) => SampleFmt::I32,
            Sample::F32(_) => SampleFmt::F32,
            Sample::F64(_) => SampleFmt::F64,
        }
    }

    /// A 24-bit sample must carry a value its three bytes can hold; every
    /// other carrier is exact by type.
    pub open spec fn wf(&self) -> bool {
        match self {
            Sample::I24(v) => -0x80_0000 <= *v <= 0x7F_FFFF,
            _ => true,
        }
    }

    /// The encoding of this sample, as executable code.
    pub fn fmt(&self) -> (r: SampleFmt)
        ensures
            r == self.fmt_of(),
    {
        match self {
            Sample::U8(_) => SampleFmt::U8,
            Sample::I16(_) => SampleFmt::I16,
            Sample::I24(_) => SampleFmt::I24,
            Sample::I32(_) => SampleFmt::I32,
            Sample::F32(_) => SampleFmt::F32,
            Sample::F64(_) => SampleFmt::F64,
        }
    }
}

/// Two's-complement reading of an unsigned 16-bit value.
pub open spec fn signed16(n: int) -> int {
    if n >= 0x8000 {
        n - 0x1_0000
    } else {
        n
    }
}

/// Two's-complement reading of an unsigned 24-bit value.
pub open spec fn signed24(n: int) -> int {
    if n >= 0x80_0000 {
        n - 0x100_0000
    } else {
        n
    }
}

/// Two's-complement reading of an unsigned 32-bit value.
pub open spec fn signed32(n: int) -> int {
    if n >= 0x8000_0000 {
        n - 0x1_0000_0000
    } else {
        n
    }
}

/// The unsigned 16-bit wire value of a signed sample.
pub open spec fn unsigned16(v: int) -> int {
    if v < 0 {
        v + 0x1_0000
    } else {
        v
    }
}

/// The unsigned 24-bit wire value of a signed sample.
pub open spec fn unsigned24(v: int) -> int {
    if v < 0 {
        v + 0x100_0000
    } else {
        v
    }
}

/// The unsigned 32-bit wire value of a signed sample.
pub open spec fn unsigned32(v: int) -> int {
    if v < 0 {
        v + 0x1_0000_0000
    } else {
        v
    }
}

/// The sample that the bytes of `b` at offset `at` decode to under
/// encoding `sf`. This is the whole read-side decode rule: little-endian
/// assembly, two's-complement sign handling (bit 23 decides for 24-bit
/// data), and raw pass-through of float bit patterns.
pub open spec fn decode_sample(sf: SampleFmt, b: Seq<u8>, at: int) -> Sample {
    match sf {
        SampleFmt::U8 => Sample::U8(b[at]),
        SampleFmt::I16 => Sample::I16(signed16(le16_at(b, at)) as i16),
        SampleFmt::I24 => Sample::I24(
            signed24(b[at] + 0x100 * b[at + 1] + 0x1_0000 * b[at + 2]) as i32,
        ),
        SampleFmt::I32 => Sample::I32(signed32(le32_at(b, at)) as i32),
        SampleFmt::F32 => Sample::F32(le32_at(b, at) as u32),
        SampleFmt::F64 => Sample::F64(le64_at(b, at) as u64),
    }
}

/// The little-endian bytes a sample is written as; its length is the
/// encoding's byte size.
pub open spec fn encode_sample(s: Sample) -> Seq<u8> {
    match s {
        Sample::U8(v) => seq![v],
        Sample::I16(v) => le_bytes(unsigned16(v as int), 2),
        Sample::I24(v) => le_bytes(unsigned24(v as int), 3),
        Sample::I32(v) => le_bytes(unsigned32(v as int), 4),
        Sample::F32(v) => le_bytes(v as int, 4),
        Sample::F64(v) => le_bytes(v as int, 8),
    }
}

/// The `k` little-endian bytes of the non-negative value `n`: the low
/// byte first, then the bytes of the quotient.
pub open spec fn le_bytes(n: int, k: nat) -> Seq<u8>
    decreases k,
{
    if k == 0 {
        Seq::<u8>::empty()
    } else {
        seq![(n % 0x100) as u8] + le_bytes(n / 0x100, (k - 1) as nat)
    }
}

/// Decoding the bytes a sample was encoded to yields the sample again:
/// the byte-level round trip of the codec is the identity on every
/// well-formed sample of every encoding.
pub proof fn lemma_codec_round_trip(s: Sample)
    requires
        s.wf(),
    ensures
        decode_sample(s.fmt_of(), encode_sample(s), 0) == s,
{
    match s {
        Sample::U8(v) => {
            assert(encode_sample(s)[0] == v);
        },
        Sample::I16(v) => {
            let n = unsigned16(v as int);
            lemma_le_bytes_value2(n);
            assert(signed16(le16_at(le_bytes(n, 2), 0)) == v as int);
        },
        Sample::I24(v) => {
            let n = unsigned24(v as int);
            lemma_le_bytes_value3(n);
            let b = le_bytes(n, 3);
            assert(signed24(b[0] + 0x100 * b[1] + 0x1_0000 * b[2]) == v as int);
        },
        Sample::I32(v) => {
            let n = unsigned32(v as int);
            lemma_le_bytes_value4(n);
            assert(signed32(le32_at(le_bytes(n, 4), 0)) == v as int);
        },
        Sample::F32(v) => {
            lemma_le_bytes_value4(v as int);
        },
        Sample::F64(v) => {
            lemma_le_bytes_value8(v as int);
        },
    }
}

/// What the writer stores for a sample, the reader decodes back to the
/// same sample, wherever in a buffer the bytes stand: if the bytes at
/// `at` are the sample's encoding, decoding at `at` yields the sample.
pub proof fn lemma_encoded_bytes_decode(b: Seq<u8>, at: int, s: Sample)
    requires
        0 <= at,
        at + s.fmt_of().size_spec() <= b.len(),
        s.wf(),
        b.subrange(at, at + s.fmt_of().size_spec()) == encode_sample(s),
    ensures
        decode_sample(s.fmt_of(), b, at) == s,
{
    lemma_codec_round_trip(s);
    let k = s.fmt_of().size_spec() as int;
    let e = encode_sample(s);
    assert forall|j: int| 0 <= j < k implies b[at + j] == e[j] by {
        assert(b.subrange(at, at + k)[j] == b[at + j]);
    }
    assert(b[at] == e[0]);
    if k >= 2 {
        assert(b[at + 1] == e[1]);
    }
    if k >= 3 {
        assert(b[at + 2] == e[2]);
    }
    if k >= 4 {
        assert(b[at + 3] == e[3]);
    }
    if k >= 8 {
        assert(b[at + 4] == e[4] && b[at + 5] == e[5] && b[at + 6] == e[6]);
        assert(b[at + 7] == e[7]);
    }
}

/// The two little-endian bytes of a 16-bit value reassemble to it.
pub proof fn lemma_le_bytes_value2(n: int)
    requires
        0 <= n < 0x1_0000,
    ensures
        le16_at(le_bytes(n, 2), 0) == n,
{
    reveal_with_fuel(le_bytes, 3);
    let b = le_bytes(n, 2);
    let n1 = n / 0x100;
    assert(b =~= seq![(n % 0x100) as u8, (n1 % 0x100) as u8]);
    assert(n1 % 0x100 == n1);
}

/// The three little-endian bytes of a 24-bit value reassemble to it.
pub proof fn lemma_le_bytes_value3(n: int)
    requires
        0 <= n < 0x100_0000,
    ensures
        le_bytes(n, 3)[0] + 0x100 * le_bytes(n, 3)[1] + 0x1_0000 * le_bytes(n, 3)[2] == n,
{
    reveal_with_fuel(le_bytes, 4);
    let b = le_bytes(n, 3);
    let n1 = n / 0x100;
    let n2 = n1 / 0x100;
    assert(b =~= seq![(n % 0x100) as u8, (n1 % 0x100) as u8, (n2 % 0x100) as u8]);
    assert(n2 % 0x100 == n2);
    assert(n % 0x100 == n - 0x100 * n1);
    assert(n1 % 0x100 == n1 - 0x100 * n2);
}

/// The four little-endian bytes of a 32-bit value reassemble to it.
pub proof fn lemma_le_bytes_value4(n: int)
    requires
        0 <= n < 0x1_0000_0000,
    ensures
        le32_at(le_bytes(n, 4), 0) == n,
{
    reveal_with_fuel(le_bytes, 5);
    let b = le_bytes(n, 4);
    let n1 = n / 0x100;
    let n2 = n1 / 0x100;
    let n3 = n2 / 0x100;
    assert(b =~= seq![
        (n % 0x100) as u8,
        (n1 % 0x100) as u8,
        (n2 % 0x100) as u8,
        (n3 % 0x100) as u8,
    ]);
    assert(n3 % 0x100 == n3);
    assert(n % 0x100 == n - 0x100 * n1);
    assert(n1 % 0x100 == n1 - 0x100 * n2);
    assert(n2 % 0x100 == n2 - 0x100 * n3);
}

/// The eight little-endian bytes of a 64-bit value reassemble to it.
pub proof fn lemma_le_bytes_value8(n: int)
    requires
        0 <= n < 0x1_0000_0000_0000_0000,
    ensures
        le64_at(le_bytes(n, 8), 0) == n,
{
    reveal_with_fuel(le_bytes, 9);
    let b = le_bytes(n, 8);
    let n1 = n / 0x100;
    let n2 = n1 / 0x100;
    let n3 = n2 / 0x100;
    let n4 = n3 / 0x100;
    let n5 = n4 / 0x100;
    let n6 = n5 / 0x100;
    let n7 = n6 / 0x100;
    assert(b =~= seq![
        (n % 0x100) as u8,
        (n1 % 0x100) as u8,
        (n2 % 0x100) as u8,
        (n3 % 0x100) as u8,
        (n4 % 0x100) as u8,
        (n5 % 0x100) as u8,
        (n6 % 0x100) as u8,
        (n7 % 0x100) as u8,
    ]);
    assert(n7 % 0x100 == n7);
    assert(n % 0x100 == n - 0x100 * n1);
    assert(n1 % 0x100 == n1 - 0x100 * n2);
    assert(n2 % 0x100 == n2 - 0x100 * n3);
    assert(n3 % 0x100 == n3 - 0x100 * n4);
    assert(n4 % 0x100 == n4 - 0x100 * n5);
    assert(n5 % 0x100 == n5 - 0x100 * n6);
    assert(n6 % 0x100 == n6 - 0x100 * n7);
}

} // verus!
