//! The streaming writer: emits a RIFF or RF64 header with placeholder
//! size fields, streams encoded samples from a fixed data offset, tracks
//! the high-water mark of what was written, and backpatches the real
//! sizes at finalization.
use vstd::prelude::*;
use crate::format::FileFmt;
use crate::sample::{encode_sample, le_bytes, Sample};
use crate::saver::{lemma_stored_chain, Saver};
use crate::wire::{
    le16_at, le32_at, le64_at, stored, DATA_TAG, DS64_TAG, FMT_TAG, RF64_TAG, RIFF_TAG,
    SIZE_SENTINEL, WAVE_TAG,
};

verus! {

/// Bytes of the fixed 12-byte container preamble.
pub const RIFF_HEADER_SIZE: usize = 12;

/// Bytes of the whole `ds64` chunk: tag, 32-bit size, 28 bytes of content.
pub const DS64_CHUNK_SIZE: usize = 36;

/// Bytes of the whole `fmt ` chunk: tag, 32-bit size, 16 bytes of fields.
pub const FMT_CHUNK_SIZE: usize = 24;

/// Which container header this writer emitted.
#[derive(Clone, Copy, PartialEq, Eq, Structural)]
pub enum RiffKind {
    Riff,
    Rf64,
}

/// The fixed fields of a `fmt ` chunk standing at offset `at`: tag, the
/// 16-byte content size, and the six format fields derived from `f`.
pub open spec fn fmt_block_at(b: Seq<u8>, at: int, f: FileFmt) -> bool {
    &&& le32_at(b, at) == FMT_TAG
    &&& le32_at(b, at + 4) == 16
    &&& le16_at(b, at + 8) == f.sample_fmt.audio_format_spec().code_spec()
    &&& le16_at(b, at + 10) == f.num_channels
    &&& le32_at(b, at + 12) == f.sample_rate
    &&& le32_at(b, at + 16) == f.byte_rate_spec()
    &&& le16_at(b, at + 20) == f.block_align_spec()
    &&& le16_at(b, at + 22) == f.sample_fmt.bit_depth_spec()
}

/// The fields of a RIFF header that construction fixes once and finalize
/// never touches: everything but the two 32-bit size fields.
pub open spec fn riff_fixed(b: Seq<u8>, f: FileFmt) -> bool {
    &&& b.len() >= 44
    &&& le32_at(b, 0) == RIFF_TAG
    &&& le32_at(b, 8) == WAVE_TAG
    &&& fmt_block_at(b, 12, f)
    &&& le32_at(b, 36) == DATA_TAG
}

/// The fields of an RF64 header that construction fixes once and finalize
/// never touches: everything but the three 64-bit `ds64` size fields.
pub open spec fn rf64_fixed(b: Seq<u8>, f: FileFmt) -> bool {
    &&& b.len() >= 80
    &&& le32_at(b, 0) == RF64_TAG
    &&& le32_at(b, 4) == SIZE_SENTINEL
    &&& le32_at(b, 8) == WAVE_TAG
    &&& le32_at(b, 12) == DS64_TAG
    &&& le32_at(b, 16) == 28
    &&& le32_at(b, 44) == 0
    &&& fmt_block_at(b, 48, f)
    &&& le32_at(b, 72) == DATA_TAG
    &&& le32_at(b, 76) == SIZE_SENTINEL
}

/// The fixed header fields of whichever container the writer emitted.
pub open spec fn header_fixed(b: Seq<u8>, kind: RiffKind, f: FileFmt) -> bool {
    match kind {
        RiffKind::Riff => riff_fixed(b, f),
        RiffKind::Rf64 => rf64_fixed(b, f),
    }
}

/// Emits the 24-byte `fmt ` chunk at the cursor.
#[verifier::rlimit(100)]
fn emit_fmt(saver: &mut Saver, format: &FileFmt)
    requires
        old(saver).pos + 24 <= usize::MAX,
        format.derived_fit(),
    ensures
        final(saver).pos == old(saver).pos + 24,
        stored(old(saver).data@, final(saver).data@, old(saver).pos as int, 24),
        fmt_block_at(final(saver).data@, old(saver).pos as int, *format),
{
    let ghost d0 = saver.data@;
    let ghost at = saver.pos as int;
    saver.save_u32(FMT_TAG);
    let ghost d1 = saver.data@;
    saver.save_u32(16);
    proof {
        lemma_stored_chain(d0, d1, saver.data@, at, 4, 4);
    }
    let ghost d2 = saver.data@;
    saver.save_u16(format.sample_fmt().audio_format().code());
    proof {
        lemma_stored_chain(d0, d2, saver.data@, at, 8, 2);
    }
    let ghost d3 = saver.data@;
    saver.save_u16(format.num_channels());
    proof {
        lemma_stored_chain(d0, d3, saver.data@, at, 10, 2);
    }
    let ghost d4 = saver.data@;
    saver.save_u32(format.sample_rate());
    proof {
        lemma_stored_chain(d0, d4, saver.data@, at, 12, 4);
    }
    let ghost d5 = saver.data@;
    saver.save_u32(format.byte_rate());
    proof {
        lemma_stored_chain(d0, d5, saver.data@, at, 16, 4);
    }
    let ghost d6 = saver.data@;
    saver.save_u16(format.block_align());
    proof {
        lemma_stored_chain(d0, d6, saver.data@, at, 20, 2);
    }
    let ghost d7 = saver.data@;
    saver.save_u16(format.sample_fmt().bit_depth());
    proof {
        lemma_stored_chain(d0, d7, saver.data@, at, 22, 2);
    }
}

/// Encodes one scalar sample at the cursor and advances past it.
#[verifier::rlimit(100)]
fn write_sample(saver: &mut Saver, s: Sample) -> (k: usize)
    requires
        old(saver).pos + s.fmt_of().size_spec() <= usize::MAX,
        s.wf(),
    ensures
        k == s.fmt_of().size_spec(),
        final(saver).pos == old(saver).pos + k,
        stored(old(saver).data@, final(saver).data@, old(saver).pos as int, k as int),
        final(saver).data@.subrange(old(saver).pos as int, old(saver).pos + k) == encode_sample(
            s,
        ),
{
    let ghost at = saver.pos as int;
    match s {
        Sample::U8(v) => {
            saver.save_u8(v);
            proof {
                assert(saver.data@.subrange(at, at + 1) =~= encode_sample(s));
            }
            1
        },
        Sample::I16(v) => {
            let u: u16 = if v >= 0 {
                v as u16
            } else {
                (v as i32 + 0x1_0000) as u16
            };
            saver.save_u16(u);
            proof {
                assert(saver.data@.subrange(at, at + 2) == encode_sample(s));
            }
            2
        },
        Sample::I24(v) => {
            let ghost d0 = saver.data@;
            let u: u32 = if v >= 0 {
                v as u32
            } else {
                (v + 0x100_0000) as u32
            };
            let q1 = u / 0x100;
            let q2 = q1 / 0x100;
            saver.save_u8((u % 0x100) as u8);
            let ghost d1 = saver.data@;
            saver.save_u8((q1 % 0x100) as u8);
            proof {
                lemma_stored_chain(d0, d1, saver.data@, at, 1, 1);
            }
            let ghost d2 = saver.data@;
            saver.save_u8((q2 % 0x100) as u8);
            proof {
                lemma_stored_chain(d0, d2, saver.data@, at, 2, 1);
                reveal_with_fuel(le_bytes, 4);
                assert(q2 % 0x100 == q2);
                assert(saver.data@.subrange(at, at + 3) =~= le_bytes(u as int, 3));
                assert(saver.data@.subrange(at, at + 3) == encode_sample(s));
            }
            3
        },
        Sample::I32(v) => {
            let u: u32 = if v >= 0 {
                v as u32
            } else {
                ((v as i64) + 0x1_0000_0000) as u32
            };
            saver.save_u32(u);
            proof {
                assert(saver.data@.subrange(at, at + 4) == encode_sample(s));
            }
            4
        },
        Sample::F32(v) => {
            saver.save_u32(v);
            proof {
                assert(saver.data@.subrange(at, at + 4) == encode_sample(s));
            }
            4
        },
        Sample::F64(v) => {
            saver.save_u64(v);
            proof {
                assert(saver.data@.subrange(at, at + 8) == encode_sample(s));
            }
            8
        },
    }
}

/// A streaming writer: the sink cursor, the container kind, the format
/// the header declares, and the high-water mark of bytes ever written.
pub struct Writer {
    pub saver: Saver,
    pub kind: RiffKind,
    pub format: FileFmt,
    pub max_pos: usize,
}

impl Writer {
    /// The fixed byte offset where sample data begins.
    pub open spec fn data_begin_spec(&self) -> int {
        match self.kind {
            RiffKind::Riff => 44,
            RiffKind::Rf64 => 80,
        }
    }

    /// Validity between operations: the cursor and the high-water mark
    /// never stand before the data offset, the mark covers both the cursor
    /// and everything materialized, the format's derived fields fit their
    /// header slots, and the fixed header fields are in place.
    pub open spec fn wf(&self) -> bool {
        &&& self.data_begin_spec() <= self.saver.pos
        &&& self.saver.pos <= self.max_pos
        &&& self.saver.data@.len() <= self.max_pos
        &&& self.data_begin_spec() <= self.max_pos
        &&& self.format.derived_fit()
        &&& header_fixed(self.saver.data@, self.kind, self.format)
    }

    /// Sink length in bytes at finalization: the high-water mark.
    pub open spec fn file_size_spec(&self) -> int {
        self.max_pos as int
    }

    /// Payload length in bytes at finalization.
    pub open spec fn data_size_spec(&self) -> int {
        self.max_pos - self.data_begin_spec()
    }

    /// Cursor offset past the data begin, in scalar samples.
    pub open spec fn position(&self) -> int {
        (self.saver.pos - self.data_begin_spec()) / (self.format.sample_fmt.size_spec() as int)
    }

    /// Samples covered by the high-water mark.
    pub open spec fn length(&self) -> int {
        self.data_size_spec() / (self.format.sample_fmt.size_spec() as int)
    }

    /// The fixed byte offset where sample data begins.
    fn data_begin(&self) -> (r: usize)
        ensures
            r == self.data_begin_spec(),
    {
        match self.kind {
            RiffKind::Riff => RIFF_HEADER_SIZE + FMT_CHUNK_SIZE + 8,
            RiffKind::Rf64 => RIFF_HEADER_SIZE + DS64_CHUNK_SIZE + FMT_CHUNK_SIZE + 8,
        }
    }

    fn file_size(&self) -> (r: usize)
        ensures
            r == self.file_size_spec(),
    {
        self.max_pos
    }

    fn data_size(&self) -> (r: usize)
        requires
            self.wf(),
        ensures
            r == self.data_size_spec(),
    {
        self.max_pos - self.data_begin()
    }

    /// Emits a bounded RIFF header into an empty sink: the container
    /// preamble with a zero placeholder for the file size, the `fmt `
    /// chunk, and a `data` chunk header with a zero placeholder size.
    #[verifier::rlimit(100)]
    pub fn to(to: Vec<u8>, format: FileFmt) -> (r: Writer)
        requires
            to@.len() == 0,
            format.derived_fit(),
        ensures
            r.wf(),
            r.kind == RiffKind::Riff,
            r.format == format,
            r.saver.pos == 44,
            r.max_pos == 44,
            r.saver.data@.len() == 44,
            le32_at(r.saver.data@, 4) == 0,
            le32_at(r.saver.data@, 40) == 0,
    {
        let mut saver = Saver::to(to);
        let ghost d0 = saver.data@;
        saver.save_u32(RIFF_TAG);
        let ghost d1 = saver.data@;
        saver.save_u32(0);
        proof {
            lemma_stored_chain(d0, d1, saver.data@, 0, 4, 4);
        }
        let ghost d2 = saver.data@;
        saver.save_u32(WAVE_TAG);
        proof {
            lemma_stored_chain(d0, d2, saver.data@, 0, 8, 4);
        }
        let ghost d3 = saver.data@;
        emit_fmt(&mut saver, &format);
        proof {
            lemma_stored_chain(d0, d3, saver.data@, 0, 12, 24);
        }
        let ghost d4 = saver.data@;
        saver.save_u32(DATA_TAG);
        proof {
            lemma_stored_chain(d0, d4, saver.data@, 0, 36, 4);
        }
        let ghost d5 = saver.data@;
        saver.save_u32(0);
        proof {
            lemma_stored_chain(d0, d5, saver.data@, 0, 40, 4);
        }
        let max_pos = saver.pos();
        Writer { saver, kind: RiffKind::Riff, format, max_pos }
    }

    /// Emits an unbounded RF64 header into an empty sink: the container
    /// preamble with the sentinel size, a `ds64` chunk with three zero
    /// placeholders, the `fmt ` chunk, and a `data` chunk header with the
    /// sentinel size.
    #[verifier::rlimit(100)]
    pub fn to_rf64(to: Vec<u8>, format: FileFmt) -> (r: Writer)
        requires
            to@.len() == 0,
            format.derived_fit(),
        ensures
            r.wf(),
            r.kind == RiffKind::Rf64,
            r.format == format,
            r.saver.pos == 80,
            r.max_pos == 80,
            r.saver.data@.len() == 80,
            le64_at(r.saver.data@, 20) == 0,
            le64_at(r.saver.data@, 28) == 0,
            le64_at(r.saver.data@, 36) == 0,
    {
        let mut saver = Saver::to(to);
        let ghost d0 = saver.data@;
        saver.save_u32(RF64_TAG);
        let ghost d1 = saver.data@;
        saver.save_u32(SIZE_SENTINEL);
        proof {
            lemma_stored_chain(d0, d1, saver.data@, 0, 4, 4);
        }
        let ghost d2 = saver.data@;
        saver.save_u32(WAVE_TAG);
        proof {
            lemma_stored_chain(d0, d2, saver.data@, 0, 8, 4);
        }
        let ghost d3 = saver.data@;
        saver.save_u32(DS64_TAG);
        proof {
            lemma_stored_chain(d0, d3, saver.data@, 0, 12, 4);
        }
        let ghost d4 = saver.data@;
        saver.save_u32(28);
        proof {
            lemma_stored_chain(d0, d4, saver.data@, 0, 16, 4);
        }
        let ghost d5 = saver.data@;
        saver.save_u64(0);
        proof {
            lemma_stored_chain(d0, d5, saver.data@, 0, 20, 8);
        }
        let ghost d6 = saver.data@;
        saver.save_u64(0);
        proof {
            lemma_stored_chain(d0, d6, saver.data@, 0, 28, 8);
        }
        let ghost d7 = saver.data@;
        saver.save_u64(0);
        proof {
            lemma_stored_chain(d0, d7, saver.data@, 0, 36, 8);
        }
        let ghost d8 = saver.data@;
        saver.save_u32(0);
        proof {
            lemma_stored_chain(d0, d8, saver.data@, 0, 44, 4);
        }
        let ghost d9 = saver.data@;
        emit_fmt(&mut saver, &format);
        proof {
            lemma_stored_chain(d0, d9, saver.data@, 0, 48, 24);
        }
        let ghost d10 = saver.data@;
        saver.save_u32(DATA_TAG);
        proof {
            lemma_stored_chain(d0, d10, saver.data@, 0, 72, 4);
        }
        let ghost d11 = saver.data@;
        saver.save_u32(SIZE_SENTINEL);
        proof {
            lemma_stored_chain(d0, d11, saver.data@, 0, 76, 4);
        }
        let max_pos = saver.pos();
        Writer { saver, kind: RiffKind::Rf64, format, max_pos }
    }

    pub fn format(&self) -> (r: FileFmt)
        ensures
            r == self.format,
    {
        self.format
    }

    /// Cursor offset past the data begin, in scalar samples.
    pub fn pos(&self) -> (r: usize)
        requires
            self.wf(),
        ensures
            r == self.position(),
    {
        (self.saver.pos() - self.data_begin()) / self.format.sample_fmt().size()
    }

    /// Samples covered by the high-water mark.
    pub fn len(&self) -> (r: usize)
        requires
            self.wf(),
        ensures
            r == self.length(),
    {
        self.data_size() / self.format.sample_fmt().size()
    }

    /// Moves the cursor forward by `n` samples without writing; the
    /// high-water mark follows the cursor if it passes it.
    pub fn skip(&mut self, n: usize) -> (r: Option<()>)
        requires
            old(self).wf(),
            old(self).saver.pos + n * old(self).format.sample_fmt.size_spec() <= usize::MAX,
        ensures
            final(self).wf(),
            r is Some,
            final(self).kind == old(self).kind,
            final(self).format == old(self).format,
            final(self).saver.data@ == old(self).saver.data@,
            final(self).saver.pos == old(self).saver.pos + n * old(self).format.sample_fmt.size_spec(),
            final(self).max_pos == (if final(self).saver.pos > old(self).max_pos {
                final(self).saver.pos as int
            } else {
                old(self).max_pos as int
            }),
    {
        let size = self.format.sample_fmt().size();
        proof {
            lemma_mul_bound(n as int, size as int);
        }
        let moved = self.saver.skip(n * size);
        assert(moved is Some);
        if self.saver.pos() > self.max_pos {
            self.max_pos = self.saver.pos();
        }
        Some(())
    }

    /// Moves the cursor backward by `n` samples; fails without moving if
    /// that would pass the data begin offset.
    pub fn rewind(&mut self, n: usize) -> (r: Option<()>)
        requires
            old(self).wf(),
        ensures
            final(self).wf(),
            final(self).kind == old(self).kind,
            final(self).format == old(self).format,
            final(self).saver.data@ == old(self).saver.data@,
            final(self).max_pos == old(self).max_pos,
            r is Some <==> old(self).saver.pos >= old(self).data_begin_spec() + n * old(self).format.sample_fmt.size_spec(),
            r is Some ==> final(self).saver.pos == old(self).saver.pos - n * old(self).format.sample_fmt.size_spec(),
            r is None ==> final(self).saver.pos == old(self).saver.pos,
    {
        let size = self.format.sample_fmt().size();
        let avail = self.saver.pos() - self.data_begin();
        proof {
            crate::reader::lemma_count_fits(n as int, size as int, avail as int);
        }
        if n <= avail / size {
            let moved = self.saver.rewind(n * size);
            assert(moved is Some);
            Some(())
        } else {
            None
        }
    }

    /// Places the cursor at absolute sample offset `n` from the data
    /// begin; the high-water mark follows the cursor if it passes it.
    pub fn seek(&mut self, n: usize) -> (r: Option<()>)
        requires
            old(self).wf(),
            old(self).data_begin_spec() + n * old(self).format.sample_fmt.size_spec()
                <= usize::MAX,
        ensures
            final(self).wf(),
            r is Some,
            final(self).kind == old(self).kind,
            final(self).format == old(self).format,
            final(self).saver.data@ == old(self).saver.data@,
            final(self).saver.pos == old(self).data_begin_spec() + n * old(self).format.sample_fmt.size_spec(),
            final(self).max_pos == (if final(self).saver.pos > old(self).max_pos {
                final(self).saver.pos as int
            } else {
                old(self).max_pos as int
            }),
    {
        let size = self.format.sample_fmt().size();
        let begin = self.data_begin();
        proof {
            lemma_mul_bound(n as int, size as int);
        }
        let moved = self.saver.seek(begin + n * size);
        assert(moved is Some);
        if self.saver.pos() > self.max_pos {
            self.max_pos = self.saver.pos();
        }
        Some(())
    }

    /// Encodes the samples at the cursor, each by the inverse of the
    /// decode rule, advancing the cursor and the high-water mark.
    #[verifier::rlimit(100)]
    pub fn write(&mut self, from: &Vec<Sample>) -> (r: Option<()>)
        requires
            old(self).wf(),
            forall|i: int|
                0 <= i < from@.len() ==> from@[i].fmt_of() == old(self).format.sample_fmt
                    && from@[i].wf(),
            old(self).saver.pos + from@.len() * old(self).format.sample_fmt.size_spec()
                <= usize::MAX,
        ensures
            final(self).wf(),
            r is Some,
            final(self).kind == old(self).kind,
            final(self).format == old(self).format,
            final(self).saver.pos == old(self).saver.pos + from@.len() * old(self).format.sample_fmt.size_spec(),
            final(self).max_pos == (if final(self).saver.pos > old(self).max_pos {
                final(self).saver.pos as int
            } else {
                old(self).max_pos as int
            }),
            stored(
                old(self).saver.data@,
                final(self).saver.data@,
                old(self).saver.pos as int,
                from@.len() * old(self).format.sample_fmt.size_spec(),
            ),
            forall|i: int|
                0 <= i < from@.len() ==> final(self).saver.data@.subrange(
                    old(self).saver.pos + i * old(self).format.sample_fmt.size_spec(),
                    old(self).saver.pos + (i + 1) * old(self).format.sample_fmt.size_spec(),
                ) == encode_sample(from@[i]),
    {
        let size = self.format.sample_fmt().size();
        let n = from.len();
        let ghost pos0 = self.saver.pos as int;
        let ghost d0 = self.saver.data@;
        let mut i: usize = 0;
        while i < n
            invariant
                i <= n,
                n == from@.len(),
                size == self.format.sample_fmt.size_spec(),
                self.format == old(self).format,
                self.kind == old(self).kind,
                self.max_pos == old(self).max_pos,
                pos0 == old(self).saver.pos,
                d0 == old(self).saver.data@,
                pos0 + n * size <= usize::MAX,
                forall|j: int|
                    0 <= j < n ==> from@[j].fmt_of() == self.format.sample_fmt && from@[j].wf(),
                self.saver.pos == pos0 + i * size,
                stored(d0, self.saver.data@, pos0, i * size),
                forall|j: int|
                    0 <= j < i ==> self.saver.data@.subrange(
                        pos0 + j * size,
                        pos0 + (j + 1) * size,
                    ) == encode_sample(from@[j]),
            decreases n - i,
        {
            proof {
                lemma_mul_steps(i as int, n as int, size as int);
            }
            let ghost dprev = self.saver.data@;
            let s = from[i];
            let k = write_sample(&mut self.saver, s);
            proof {
                lemma_stored_chain(d0, dprev, self.saver.data@, pos0, i as int * size, size as int);
                assert forall|j: int| 0 <= j < i implies self.saver.data@.subrange(
                    pos0 + j * size,
                    pos0 + (j + 1) * size,
                ) == encode_sample(from@[j]) by {
                    lemma_mul_steps(j, n as int, size as int);
                    assert(self.saver.data@.subrange(pos0 + j * size, pos0 + (j + 1) * size)
                        =~= dprev.subrange(pos0 + j * size, pos0 + (j + 1) * size));
                }
            }
            i = i + 1;
        }
        if self.saver.pos() > self.max_pos {
            self.max_pos = self.saver.pos();
        }
        Some(())
    }

    /// Backpatches the placeholder size fields with the real quantities:
    /// for RIFF the 32-bit file and data sizes; for RF64 the three 64-bit
    /// `ds64` fields (file size, data size, sample count). Every byte
    /// outside those fields is left as it stands. Call exactly once, when
    /// writing is done; the cursor is left inside the header afterwards.
    #[verifier::rlimit(100)]
    pub fn finalize(&mut self) -> (r: Option<()>)
        requires
            old(self).wf(),
            old(self).kind == RiffKind::Riff ==> old(self).max_pos <= u32::MAX,
        ensures
            r is Some,
            final(self).kind == old(self).kind,
            final(self).format == old(self).format,
            final(self).max_pos == old(self).max_pos,
            final(self).saver.data@.len() == old(self).saver.data@.len(),
            header_fixed(final(self).saver.data@, final(self).kind, final(self).format),
            old(self).kind == RiffKind::Riff ==> {
                &&& le32_at(final(self).saver.data@, 4) == old(self).file_size_spec()
                &&& le32_at(final(self).saver.data@, 40) == old(self).data_size_spec()
                &&& forall|i: int|
                    0 <= i < final(self).saver.data@.len() && !(4 <= i < 8) && !(40 <= i < 44)
                        ==> final(self).saver.data@[i] == old(self).saver.data@[i]
            },
            old(self).kind == RiffKind::Rf64 ==> {
                &&& le64_at(final(self).saver.data@, 20) == old(self).file_size_spec()
                &&& le64_at(final(self).saver.data@, 28) == old(self).data_size_spec()
                &&& le64_at(final(self).saver.data@, 36) == old(self).data_size_spec() / (old(self).format.sample_fmt.size_spec() as int)
                &&& forall|i: int|
                    0 <= i < final(self).saver.data@.len() && !(20 <= i < 44) ==> final(self).saver.data@[i] == old(self).saver.data@[i]
            },
    {
        match self.kind {
            RiffKind::Riff => {
                let ghost d0 = self.saver.data@;
                let sought = self.saver.seek(4);
                self.saver.save_u32(self.max_pos as u32);
                let ghost d1 = self.saver.data@;
                let sought = self.saver.seek(RIFF_HEADER_SIZE + FMT_CHUNK_SIZE + 4);
                self.saver.save_u32((self.max_pos - (RIFF_HEADER_SIZE + FMT_CHUNK_SIZE + 8))
                    as u32);
                proof {
                    assert(self.saver.data@.len() == d0.len());
                    assert forall|i: int|
                        0 <= i < self.saver.data@.len() && !(4 <= i < 8) && !(40 <= i < 44)
                            implies self.saver.data@[i] == d0[i] by {
                        assert(self.saver.data@[i] == d1[i]);
                    }
                }
            },
            RiffKind::Rf64 => {
                let ghost d0 = self.saver.data@;
                let sought = self.saver.seek(RIFF_HEADER_SIZE + 8);
                self.saver.save_u64(self.max_pos as u64);
                let ghost d1 = self.saver.data@;
                let dsize = self.max_pos - (RIFF_HEADER_SIZE + DS64_CHUNK_SIZE + FMT_CHUNK_SIZE
                    + 8);
                self.saver.save_u64(dsize as u64);
                let ghost d2 = self.saver.data@;
                self.saver.save_u64((dsize / self.format.sample_fmt().size()) as u64);
                proof {
                    assert(self.saver.data@.len() == d0.len());
                    assert forall|i: int|
                        0 <= i < self.saver.data@.len() && !(20 <= i < 44) implies self.saver.data@[i]
                            == d0[i] by {
                        assert(self.saver.data@[i] == d2[i]);
                        assert(d2[i] == d1[i]);
                    }
                }
            },
        }
        Some(())
    }

    /// Hands the finished byte buffer back; what was written is the file.
    pub fn into_bytes(self) -> (r: Vec<u8>)
        ensures
            r@ == self.saver.data@,
    {
        self.saver.into_bytes()
    }
}

/// Multiplying a sample count by a sample size of at most eight bytes
/// keeps every partial offset below the total.
proof fn lemma_mul_steps(i: int, n: int, size: int)
    requires
        0 <= i < n,
        1 <= size,
    ensures
        (i + 1) * size == i * size + size,
        0 <= i * size,
        (i + 1) * size <= n * size,
{
    assert((i + 1) * size == i * size + size) by (nonlinear_arith);
    assert(0 <= i * size && (i + 1) * size <= n * size) by (nonlinear_arith)
        requires
            0 <= i < n,
            1 <= size,
    ;
}

/// A sample count times a positive size is at least the count itself.
proof fn lemma_mul_bound(n: int, size: int)
    requires
        0 <= n,
        1 <= size,
    ensures
        0 <= n * size,
{
    assert(0 <= n * size) by (nonlinear_arith)
        requires
            0 <= n,
            1 <= size,
    ;
}

} // verus!
