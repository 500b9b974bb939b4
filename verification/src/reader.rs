//! The chunk-walking reader: parses and validates the RIFF/RF64 container,
//! locates the `fmt ` and `data` chunks (and `ds64` for RF64), and serves
//! position-aware sample reads against the data region.
//!
//! What construction accepts and returns is pinned by `parse_wave`, a
//! recursive specification of the whole walk: `Reader::from` succeeds on
//! exactly the byte sequences `parse_wave` accepts, and returns the format
//! and data region it names.
use vstd::prelude::*;
use crate::format::{AudioFmt, FileFmt, SampleFmt};
use crate::loader::Loader;
use crate::sample::{decode_sample, Sample};
use crate::wire::{
    le16_at, le32_at, le64_at, DATA_TAG, DS64_TAG, FMT_TAG, RF64_TAG, RIFF_TAG, SIZE_SENTINEL,
    WAVE_TAG,
};

verus! {

/// The container variant, as the walk learns it: a bounded RIFF file, an
/// RF64 file still waiting for its `ds64` chunk, or an RF64 file whose
/// 64-bit data size and frame count have been read.
#[derive(Clone, Copy, PartialEq, Eq, Structural)]
pub enum ContainerState {
    Riff,
    Rf64Pending,
    Rf64Resolved(u64, u64),
}

/// What the walk finds once the cursor stands at the end of the source:
/// both a format and a data region must have been seen, the region must
/// hold a whole number of frames, and an RF64 frame-count override must
/// match the region exactly.
pub open spec fn finish_walk(
    st: ContainerState,
    fmt: Option<FileFmt>,
    region: Option<(int, int)>,
) -> Option<(FileFmt, int, int)> {
    match (fmt, region) {
        (Some(f), Some((begin, end))) => {
            let blen = end - begin;
            let bs = f.sample_fmt.size_spec() * f.num_channels;
            if bs == 0 {
                None
            } else if blen % (bs as int) != 0 {
                None
            } else {
                match st {
                    ContainerState::Rf64Resolved(_, cnt) => if cnt != blen / (bs as int) {
                        None
                    } else {
                        Some((f, begin, end))
                    },
                    _ => Some((f, begin, end)),
                }
            }
        },
        _ => None,
    }
}

/// The byte size a `data` chunk stands for: RIFF takes the declared size
/// literally; a resolved RF64 substitutes its 64-bit override for the
/// sentinel; everything else (a sentinel without an override, an RF64
/// declared size that is not the sentinel) is a failure.
pub open spec fn data_size_of(st: ContainerState, size: int) -> Option<int> {
    match st {
        ContainerState::Riff => Some(size),
        ContainerState::Rf64Pending => None,
        ContainerState::Rf64Resolved(ds, _) => if size == SIZE_SENTINEL {
            Some(ds as int)
        } else {
            None
        },
    }
}

/// One step of the chunk walk at offset `pos`: reads a tag and a 32-bit
/// size, dispatches on the tag exactly as construction does, and recurses
/// past the chunk. `None` is every way the walk can fail.
#[verifier::opaque]
pub open spec fn walk_chunks(
    b: Seq<u8>,
    pos: int,
    st: ContainerState,
    fmt: Option<FileFmt>,
    region: Option<(int, int)>,
) -> Option<(FileFmt, int, int)>
    decreases b.len() - pos,
{
    if pos == b.len() {
        finish_walk(st, fmt, region)
    } else if pos + 8 > b.len() {
        None
    } else {
        let tag = le32_at(b, pos);
        let size = le32_at(b, pos + 4);
        let body = pos + 8;
        if tag == DS64_TAG {
            if st is Riff {
                None
            } else if body + 24 > b.len() {
                None
            } else if le64_at(b, body) != b.len() {
                None
            } else if size < 24 {
                None
            } else if body + size > b.len() {
                None
            } else {
                walk_chunks(
                    b,
                    body + size,
                    ContainerState::Rf64Resolved(
                        le64_at(b, body + 8) as u64,
                        le64_at(b, body + 16) as u64,
                    ),
                    fmt,
                    region,
                )
            }
        } else if tag == FMT_TAG {
            if body + 16 > b.len() {
                None
            } else {
                let ch = le16_at(b, body + 2);
                let rate = le32_at(b, body + 4);
                let bits = le16_at(b, body + 14);
                if le32_at(b, body + 8) != rate * ch * bits / 8 {
                    None
                } else if le16_at(b, body + 12) != ch * bits / 8 {
                    None
                } else {
                    let afmt = if le16_at(b, body) == 1 {
                        Some(AudioFmt::Pcm)
                    } else if le16_at(b, body) == 3 {
                        Some(AudioFmt::IeeeFloat)
                    } else {
                        None
                    };
                    if afmt is None {
                        None
                    } else {
                        match SampleFmt::resolve_spec(afmt.unwrap(), bits as u16) {
                            None => None,
                            Some(sf) => {
                                if size < 16 {
                                    None
                                } else if body + size > b.len() {
                                    None
                                } else {
                                    walk_chunks(
                                        b,
                                        body + size,
                                        st,
                                        Some(
                                            FileFmt {
                                                sample_fmt: sf,
                                                num_channels: ch as u16,
                                                sample_rate: rate as u32,
                                            },
                                        ),
                                        region,
                                    )
                                }
                            },
                        }
                    }
                }
            }
        } else if tag == DATA_TAG {
            let dsz = data_size_of(st, size);
            if dsz is None {
                None
            } else if body + dsz.unwrap() > b.len() {
                None
            } else {
                walk_chunks(b, body + dsz.unwrap(), st, fmt, Some((body, body + dsz.unwrap())))
            }
        } else {
            if body + size > b.len() {
                None
            } else {
                walk_chunks(b, body + size, st, fmt, region)
            }
        }
    }
}

/// The whole construction contract: a 12-byte preamble whose format tag is
/// `WAVE` and whose container tag and declared size are self-consistent
/// (RIFF: the size is the source's byte length; RF64: the size is the
/// sentinel), followed by the chunk walk from offset 12.
pub open spec fn parse_wave(b: Seq<u8>) -> Option<(FileFmt, int, int)> {
    if b.len() < 12 {
        None
    } else if le32_at(b, 8) != WAVE_TAG {
        None
    } else if le32_at(b, 0) == RIFF_TAG && le32_at(b, 4) == b.len() {
        walk_chunks(b, 12, ContainerState::Riff, None, None)
    } else if le32_at(b, 0) == RF64_TAG && le32_at(b, 4) == SIZE_SENTINEL {
        walk_chunks(b, 12, ContainerState::Rf64Pending, None, None)
    } else {
        None
    }
}

/// The exact view of a located data region.
pub open spec fn region_view(r: Option<(usize, usize)>) -> Option<(int, int)> {
    match r {
        None => None,
        Some((x, y)) => Some((x as int, y as int)),
    }
}



/// The walk fails on a truncated trailer: fewer than eight bytes remain
/// but the cursor is not at the end.
proof fn lemma_walk_truncated(
    b: Seq<u8>,
    pos: int,
    st: ContainerState,
    fmt: Option<FileFmt>,
    region: Option<(int, int)>,
)
    requires
        pos < b.len(),
        pos + 8 > b.len(),
    ensures
        walk_chunks(b, pos, st, fmt, region) is None,
{
    reveal_with_fuel(walk_chunks, 1);
}

/// Conditions under which a `ds64` chunk at `pos` is read successfully.
pub open spec fn ds64_ok(b: Seq<u8>, pos: int) -> bool {
    &&& pos + 32 <= b.len()
    &&& le64_at(b, pos + 8) == b.len()
    &&& le32_at(b, pos + 4) >= 24
    &&& pos + 8 + le32_at(b, pos + 4) <= b.len()
}

/// A `ds64` chunk inside a RIFF container fails the walk.
proof fn lemma_ds64_riff(
    b: Seq<u8>,
    pos: int,
    st: ContainerState,
    fmt: Option<FileFmt>,
    region: Option<(int, int)>,
)
    requires
        pos + 8 <= b.len(),
        le32_at(b, pos) == DS64_TAG,
        st is Riff,
    ensures
        walk_chunks(b, pos, st, fmt, region) is None,
{
    reveal_with_fuel(walk_chunks, 1);
}

/// A malformed `ds64` chunk fails the walk.
proof fn lemma_ds64_bad(
    b: Seq<u8>,
    pos: int,
    st: ContainerState,
    fmt: Option<FileFmt>,
    region: Option<(int, int)>,
)
    requires
        pos + 8 <= b.len(),
        le32_at(b, pos) == DS64_TAG,
        !ds64_ok(b, pos),
    ensures
        walk_chunks(b, pos, st, fmt, region) is None,
{
    reveal_with_fuel(walk_chunks, 1);
}

/// A well-formed `ds64` chunk records the 64-bit override and the walk
/// continues past its declared end.
proof fn lemma_ds64_step(
    b: Seq<u8>,
    pos: int,
    st: ContainerState,
    fmt: Option<FileFmt>,
    region: Option<(int, int)>,
)
    requires
        pos + 8 <= b.len(),
        le32_at(b, pos) == DS64_TAG,
        !(st is Riff),
        ds64_ok(b, pos),
    ensures
        walk_chunks(b, pos, st, fmt, region) == walk_chunks(
            b,
            pos + 8 + le32_at(b, pos + 4),
            ContainerState::Rf64Resolved(le64_at(b, pos + 16) as u64, le64_at(b, pos + 24) as u64),
            fmt,
            region,
        ),
{
    reveal_with_fuel(walk_chunks, 1);
}

/// Conditions under which a `fmt ` chunk at `pos` is read successfully,
/// and the format it then declares.
pub open spec fn fmt_ok(b: Seq<u8>, pos: int) -> bool {
    let body = pos + 8;
    let ch = le16_at(b, body + 2);
    let rate = le32_at(b, body + 4);
    let bits = le16_at(b, body + 14);
    &&& body + 16 <= b.len()
    &&& le32_at(b, body + 8) == rate * ch * bits / 8
    &&& le16_at(b, body + 12) == ch * bits / 8
    &&& fmt_class(b, pos) is Some
    &&& SampleFmt::resolve_spec(fmt_class(b, pos).unwrap(), bits as u16) is Some
    &&& le32_at(b, pos + 4) >= 16
    &&& pos + 8 + le32_at(b, pos + 4) <= b.len()
}

/// The container code class a `fmt ` chunk declares, if supported.
pub open spec fn fmt_class(b: Seq<u8>, pos: int) -> Option<AudioFmt> {
    if le16_at(b, pos + 8) == 1 {
        Some(AudioFmt::Pcm)
    } else if le16_at(b, pos + 8) == 3 {
        Some(AudioFmt::IeeeFloat)
    } else {
        None
    }
}

/// The format a well-formed `fmt ` chunk declares.
pub open spec fn fmt_declared(b: Seq<u8>, pos: int) -> FileFmt {
    let body = pos + 8;
    FileFmt {
        sample_fmt: SampleFmt::resolve_spec(
            fmt_class(b, pos).unwrap(),
            le16_at(b, body + 14) as u16,
        ).unwrap(),
        num_channels: le16_at(b, body + 2) as u16,
        sample_rate: le32_at(b, body + 4) as u32,
    }
}

/// A malformed `fmt ` chunk fails the walk.
proof fn lemma_fmt_bad(
    b: Seq<u8>,
    pos: int,
    st: ContainerState,
    fmt: Option<FileFmt>,
    region: Option<(int, int)>,
)
    requires
        pos + 8 <= b.len(),
        le32_at(b, pos) == FMT_TAG,
        !fmt_ok(b, pos),
    ensures
        walk_chunks(b, pos, st, fmt, region) is None,
{
    reveal_with_fuel(walk_chunks, 1);
}

/// A well-formed `fmt ` chunk records its format and the walk continues
/// past its declared end.
proof fn lemma_fmt_step(
    b: Seq<u8>,
    pos: int,
    st: ContainerState,
    fmt: Option<FileFmt>,
    region: Option<(int, int)>,
)
    requires
        pos + 8 <= b.len(),
        le32_at(b, pos) == FMT_TAG,
        fmt_ok(b, pos),
    ensures
        walk_chunks(b, pos, st, fmt, region) == walk_chunks(
            b,
            pos + 8 + le32_at(b, pos + 4),
            st,
            Some(fmt_declared(b, pos)),
            region,
        ),
{
    reveal_with_fuel(walk_chunks, 1);
}

/// A `data` chunk whose size cannot be resolved, or whose payload passes
/// the end of the source, fails the walk.
proof fn lemma_data_bad(
    b: Seq<u8>,
    pos: int,
    st: ContainerState,
    fmt: Option<FileFmt>,
    region: Option<(int, int)>,
)
    requires
        pos + 8 <= b.len(),
        le32_at(b, pos) == DATA_TAG,
        data_size_of(st, le32_at(b, pos + 4)) is None || pos + 8 + data_size_of(
            st,
            le32_at(b, pos + 4),
        ).unwrap() > b.len(),
    ensures
        walk_chunks(b, pos, st, fmt, region) is None,
{
    reveal_with_fuel(walk_chunks, 1);
}

/// A resolvable `data` chunk records the data region and the walk
/// continues past it.
proof fn lemma_data_step(
    b: Seq<u8>,
    pos: int,
    st: ContainerState,
    fmt: Option<FileFmt>,
    region: Option<(int, int)>,
)
    requires
        pos + 8 <= b.len(),
        le32_at(b, pos) == DATA_TAG,
        data_size_of(st, le32_at(b, pos + 4)) is Some,
        pos + 8 + data_size_of(st, le32_at(b, pos + 4)).unwrap() <= b.len(),
    ensures
        walk_chunks(b, pos, st, fmt, region) == walk_chunks(
            b,
            pos + 8 + data_size_of(st, le32_at(b, pos + 4)).unwrap(),
            st,
            fmt,
            Some((pos + 8, pos + 8 + data_size_of(st, le32_at(b, pos + 4)).unwrap())),
        ),
{
    reveal_with_fuel(walk_chunks, 1);
}

/// An unrecognized chunk that passes the end of the source fails the walk.
proof fn lemma_other_bad(
    b: Seq<u8>,
    pos: int,
    st: ContainerState,
    fmt: Option<FileFmt>,
    region: Option<(int, int)>,
)
    requires
        pos + 8 <= b.len(),
        le32_at(b, pos) != DS64_TAG,
        le32_at(b, pos) != FMT_TAG,
        le32_at(b, pos) != DATA_TAG,
        pos + 8 + le32_at(b, pos + 4) > b.len(),
    ensures
        walk_chunks(b, pos, st, fmt, region) is None,
{
    reveal_with_fuel(walk_chunks, 1);
}

/// An unrecognized chunk is opaque to the walk: wherever one stands, the
/// walk skips it by its declared size and resolves exactly as it would
/// from the chunk's end, with the same state, format and data region.
pub proof fn lemma_opaque_chunk_skipped(
    b: Seq<u8>,
    pos: int,
    st: ContainerState,
    fmt: Option<FileFmt>,
    region: Option<(int, int)>,
)
    requires
        pos + 8 <= b.len(),
        le32_at(b, pos) != DS64_TAG,
        le32_at(b, pos) != FMT_TAG,
        le32_at(b, pos) != DATA_TAG,
        pos + 8 + le32_at(b, pos + 4) <= b.len(),
    ensures
        walk_chunks(b, pos, st, fmt, region) == walk_chunks(
            b,
            pos + 8 + le32_at(b, pos + 4),
            st,
            fmt,
            region,
        ),
{
    reveal_with_fuel(walk_chunks, 1);
}

/// At the end of the source the walk is its finishing validation.
proof fn lemma_walk_at_end(
    b: Seq<u8>,
    st: ContainerState,
    fmt: Option<FileFmt>,
    region: Option<(int, int)>,
)
    ensures
        walk_chunks(b, b.len() as int, st, fmt, region) == finish_walk(st, fmt, region),
{
    reveal_with_fuel(walk_chunks, 1);
}


/// A `fmt ` chunk whose declared byte rate differs from the one recomputed
/// out of its own sample rate, channel count and bit depth fails the walk,
/// whatever else the file holds.
pub proof fn lemma_mismatched_byte_rate_rejected(
    b: Seq<u8>,
    pos: int,
    st: ContainerState,
    fmt: Option<FileFmt>,
    region: Option<(int, int)>,
)
    requires
        pos + 8 <= b.len(),
        le32_at(b, pos) == FMT_TAG,
        le32_at(b, pos + 16) != le32_at(b, pos + 12) * le16_at(b, pos + 10) * le16_at(
            b,
            pos + 22,
        ) / 8,
    ensures
        walk_chunks(b, pos, st, fmt, region) is None,
{
    lemma_fmt_bad(b, pos, st, fmt, region);
}

/// A `fmt ` chunk whose declared block align differs from the recomputed
/// one fails the walk.
pub proof fn lemma_mismatched_block_align_rejected(
    b: Seq<u8>,
    pos: int,
    st: ContainerState,
    fmt: Option<FileFmt>,
    region: Option<(int, int)>,
)
    requires
        pos + 8 <= b.len(),
        le32_at(b, pos) == FMT_TAG,
        le16_at(b, pos + 20) != le16_at(b, pos + 10) * le16_at(b, pos + 22) / 8,
    ensures
        walk_chunks(b, pos, st, fmt, region) is None,
{
    lemma_fmt_bad(b, pos, st, fmt, region);
}

/// In every file the parser accepts under a `RIFF` tag, the declared total
/// size equals the actual byte length of the source.
pub proof fn lemma_riff_declared_size(b: Seq<u8>)
    requires
        parse_wave(b) is Some,
        le32_at(b, 0) == RIFF_TAG,
    ensures
        le32_at(b, 4) == b.len(),
{
}

/// In every file the parser accepts under an `RF64` tag, the 32-bit size
/// field holds the sentinel; the real sizes come from `ds64`.
pub proof fn lemma_rf64_declared_sentinel(b: Seq<u8>)
    requires
        parse_wave(b) is Some,
        le32_at(b, 0) == RF64_TAG,
    ensures
        le32_at(b, 4) == SIZE_SENTINEL,
{
    if le32_at(b, 0) == RIFF_TAG {
        assert(false);
    }
}

/// Reads a `ds64` chunk body: the declared 64-bit file size must equal the
/// source length, the chunk must hold the three 64-bit fields, and the
/// cursor is left at the chunk's declared end. Returns the 64-bit data
/// size and frame count override.
fn chunk_ds64(loader: &mut Loader, body: usize, size: u32) -> (r: Option<(u64, u64)>)
    requires
        old(loader).wf(),
        old(loader).pos == body,
    ensures
        final(loader).wf(),
        final(loader).data@ == old(loader).data@,
        ({
            let b = old(loader).data@;
            &&& r is Some <==> {
                &&& body + 24 <= b.len()
                &&& le64_at(b, body as int) == b.len()
                &&& size >= 24
                &&& body + size <= b.len()
            }
            &&& r is Some ==> {
                &&& r.unwrap().0 == le64_at(b, body + 8) as u64
                &&& r.unwrap().1 == le64_at(b, body + 16) as u64
                &&& final(loader).pos == body + size
            }
        }),
{
    let dlen = loader.len();
    let file_size = match loader.load_u64() {
        Some(x) => x,
        None => {
            return None;
        },
    };
    let data_size = match loader.load_u64() {
        Some(x) => x,
        None => {
            return None;
        },
    };
    let frame_count = match loader.load_u64() {
        Some(x) => x,
        None => {
            return None;
        },
    };
    if file_size != dlen as u64 {
        return None;
    }
    if size < 24 {
        return None;
    }
    if size as usize > dlen - body {
        return None;
    }
    let sought = loader.seek(body + size as usize);
    assert(sought is Some);
    Some((data_size, frame_count))
}

/// Reads and validates a `fmt ` chunk body: the declared byte rate and
/// block align must equal the quantities recomputed from the other fields,
/// and the format code and bit depth must resolve to a supported encoding.
/// The cursor is left at the chunk's declared end.
fn chunk_fmt(loader: &mut Loader, body: usize, size: u32) -> (r: Option<FileFmt>)
    requires
        old(loader).wf(),
        old(loader).pos == body,
    ensures
        final(loader).wf(),
        final(loader).data@ == old(loader).data@,
        ({
            let b = old(loader).data@;
            let ch = le16_at(b, body + 2);
            let rate = le32_at(b, body + 4);
            let bits = le16_at(b, body + 14);
            let afmt = if le16_at(b, body as int) == 1 {
                Some(AudioFmt::Pcm)
            } else if le16_at(b, body as int) == 3 {
                Some(AudioFmt::IeeeFloat)
            } else {
                None
            };
            &&& r is Some <==> {
                &&& body + 16 <= b.len()
                &&& le32_at(b, body + 8) == rate * ch * bits / 8
                &&& le16_at(b, body + 12) == ch * bits / 8
                &&& afmt is Some
                &&& SampleFmt::resolve_spec(afmt.unwrap(), bits as u16) is Some
                &&& size >= 16
                &&& body + size <= b.len()
            }
            &&& r is Some ==> {
                &&& r.unwrap() == (FileFmt {
                    sample_fmt: SampleFmt::resolve_spec(afmt.unwrap(), bits as u16).unwrap(),
                    num_channels: ch as u16,
                    sample_rate: rate as u32,
                })
                &&& final(loader).pos == body + size
            }
        }),
{
    let dlen = loader.len();
    let f_af = match loader.load_u16() {
        Some(x) => x,
        None => {
            return None;
        },
    };
    let f_ch = match loader.load_u16() {
        Some(x) => x,
        None => {
            return None;
        },
    };
    let f_rate = match loader.load_u32() {
        Some(x) => x,
        None => {
            return None;
        },
    };
    let f_brate = match loader.load_u32() {
        Some(x) => x,
        None => {
            return None;
        },
    };
    let f_balign = match loader.load_u16() {
        Some(x) => x,
        None => {
            return None;
        },
    };
    let f_bits = match loader.load_u16() {
        Some(x) => x,
        None => {
            return None;
        },
    };
    proof {
        assert((f_rate as int) * (f_ch as int) <= 0xFFFF_FFFF * 0xFFFF && (f_rate as int) * (
        f_ch as int) * (f_bits as int) <= 0xFFFF_FFFF * 0xFFFF * 0xFFFF && (f_ch as int) * (
        f_bits as int) <= 0xFFFF * 0xFFFF) by (nonlinear_arith)
            requires
                f_rate <= 0xFFFF_FFFFu32,
                f_ch <= 0xFFFFu16,
                f_bits <= 0xFFFFu16,
        ;
    }
    if f_brate as u64 != f_rate as u64 * f_ch as u64 * f_bits as u64 / 8 {
        return None;
    }
    if f_balign as u32 != f_ch as u32 * f_bits as u32 / 8 {
        return None;
    }
    let afmt = match AudioFmt::new(f_af) {
        Some(a) => a,
        None => {
            return None;
        },
    };
    let sf = match SampleFmt::new(afmt, f_bits) {
        Some(x) => x,
        None => {
            return None;
        },
    };
    if size < 16 {
        return None;
    }
    if size as usize > dlen - body {
        return None;
    }
    let sought = loader.seek(body + size as usize);
    assert(sought is Some);
    Some(FileFmt::new(sf, f_ch, f_rate))
}


/// Reads one chunk header at the cursor and dispatches on its tag,
/// advancing the cursor past the chunk. Returns whether the walk can
/// continue: on `true` the walk from the new position resolves to the
/// same outcome as from the old one; on `false` the walk from the old
/// position has failed.
#[verifier::rlimit(100)]
fn process_chunk(
    loader: &mut Loader,
    st: &mut ContainerState,
    fmt_opt: &mut Option<FileFmt>,
    region: &mut Option<(usize, usize)>,
) -> (ok: bool)
    requires
        old(loader).wf(),
        old(loader).pos < old(loader).data@.len(),
        region_view(*old(region)) is Some ==> region_view(*old(region)).unwrap().0
            <= region_view(*old(region)).unwrap().1 <= old(loader).data@.len(),
    ensures
        final(loader).wf(),
        final(loader).data@ == old(loader).data@,
        ok ==> old(loader).pos < final(loader).pos,
        ok ==> walk_chunks(
            final(loader).data@,
            final(loader).pos as int,
            *final(st),
            *final(fmt_opt),
            region_view(*final(region)),
        ) == walk_chunks(
            old(loader).data@,
            old(loader).pos as int,
            *old(st),
            *old(fmt_opt),
            region_view(*old(region)),
        ),
        !ok ==> walk_chunks(
            old(loader).data@,
            old(loader).pos as int,
            *old(st),
            *old(fmt_opt),
            region_view(*old(region)),
        ) is None,
        region_view(*final(region)) is Some ==> region_view(*final(region)).unwrap().0
            <= region_view(*final(region)).unwrap().1 <= final(loader).data@.len(),
{
    let ghost b = loader.data@;
    let ghost pos0 = loader.pos as int;
    let ghost st0 = *st;
    let ghost fmt0 = *fmt_opt;
    let ghost region0 = *region;
    let dlen = loader.len();
    let tag = match loader.load_u32() {
        Some(x) => x,
        None => {
            proof {
                lemma_walk_truncated(b, pos0, st0, fmt0, region_view(region0));
            }
            return false;
        },
    };
    let size = match loader.load_u32() {
        Some(x) => x,
        None => {
            proof {
                lemma_walk_truncated(b, pos0, st0, fmt0, region_view(region0));
            }
            return false;
        },
    };
    let body = loader.pos();
    if tag == DS64_TAG {
        match *st {
            ContainerState::Riff => {
                proof {
                    lemma_ds64_riff(b, pos0, st0, fmt0, region_view(region0));
                }
                return false;
            },
            _ => {},
        }
        let (data_size, frame_count) = match chunk_ds64(loader, body, size) {
            Some(x) => x,
            None => {
                proof {
                    lemma_ds64_bad(b, pos0, st0, fmt0, region_view(region0));
                }
                return false;
            },
        };
        *st = ContainerState::Rf64Resolved(data_size, frame_count);
        proof {
            lemma_ds64_step(b, pos0, st0, fmt0, region_view(region0));
        }
        true
    } else if tag == FMT_TAG {
        let f = match chunk_fmt(loader, body, size) {
            Some(x) => x,
            None => {
                proof {
                    lemma_fmt_bad(b, pos0, st0, fmt0, region_view(region0));
                }
                return false;
            },
        };
        *fmt_opt = Some(f);
        proof {
            lemma_fmt_step(b, pos0, st0, fmt0, region_view(region0));
            assert(f == fmt_declared(b, pos0));
        }
        true
    } else if tag == DATA_TAG {
        let dsz: u64 = match *st {
            ContainerState::Riff => size as u64,
            ContainerState::Rf64Pending => {
                proof {
                    lemma_data_bad(b, pos0, st0, fmt0, region_view(region0));
                }
                return false;
            },
            ContainerState::Rf64Resolved(ds, _) => {
                if size == SIZE_SENTINEL {
                    ds
                } else {
                    proof {
                        lemma_data_bad(b, pos0, st0, fmt0, region_view(region0));
                    }
                    return false;
                }
            },
        };
        if dsz > (dlen - body) as u64 {
            proof {
                lemma_data_bad(b, pos0, st0, fmt0, region_view(region0));
            }
            return false;
        }
        let end = body + dsz as usize;
        *region = Some((body, end));
        let sought = loader.seek(end);
        assert(sought is Some);
        proof {
            lemma_data_step(b, pos0, st0, fmt0, region_view(region0));
        }
        true
    } else {
        if size as usize > dlen - body {
            proof {
                lemma_other_bad(b, pos0, st0, fmt0, region_view(region0));
            }
            return false;
        }
        let sought = loader.seek(body + size as usize);
        assert(sought is Some);
        proof {
            lemma_opaque_chunk_skipped(b, pos0, st0, fmt0, region_view(region0));
        }
        true
    }
}


/// `n * size <= avail` exactly when `n <= avail / size`, for a positive
/// sample size: the bound every sample-count check reduces to.
pub proof fn lemma_count_fits(n: int, size: int, avail: int)
    requires
        size >= 1,
        n >= 0,
        avail >= 0,
    ensures
        n * size <= avail <==> n <= avail / size,
{
    assert(n * size <= avail <==> n <= avail / size) by (nonlinear_arith)
        requires
            size >= 1,
            n >= 0,
            avail >= 0,
    ;
}

/// Reads and decodes one scalar sample at the cursor.
fn read_one(loader: &mut Loader, sf: SampleFmt) -> (s: Sample)
    requires
        old(loader).wf(),
        old(loader).pos + sf.size_spec() <= old(loader).data@.len(),
    ensures
        final(loader).wf(),
        final(loader).data@ == old(loader).data@,
        final(loader).pos == old(loader).pos + sf.size_spec(),
        s == decode_sample(sf, old(loader).data@, old(loader).pos as int),
        s.wf(),
        s.fmt_of() == sf,
{
    match sf {
        SampleFmt::U8 => {
            let v = match loader.load_u8() {
                Some(x) => x,
                None => {
                    assert(false);
                    0
                },
            };
            Sample::U8(v)
        },
        SampleFmt::I16 => {
            let v = match loader.load_u16() {
                Some(x) => x,
                None => {
                    assert(false);
                    0
                },
            };
            if v >= 0x8000 {
                Sample::I16((v as i32 - 0x1_0000) as i16)
            } else {
                Sample::I16(v as i16)
            }
        },
        SampleFmt::I24 => {
            let b0 = match loader.load_u8() {
                Some(x) => x,
                None => {
                    assert(false);
                    0
                },
            };
            let b1 = match loader.load_u8() {
                Some(x) => x,
                None => {
                    assert(false);
                    0
                },
            };
            let b2 = match loader.load_u8() {
                Some(x) => x,
                None => {
                    assert(false);
                    0
                },
            };
            let u = b0 as u32 + 0x100 * b1 as u32 + 0x1_0000 * b2 as u32;
            if u >= 0x80_0000 {
                Sample::I24(u as i32 - 0x100_0000)
            } else {
                Sample::I24(u as i32)
            }
        },
        SampleFmt::I32 => {
            let v = match loader.load_u32() {
                Some(x) => x,
                None => {
                    assert(false);
                    0
                },
            };
            if v >= 0x8000_0000 {
                Sample::I32((v as i64 - 0x1_0000_0000) as i32)
            } else {
                Sample::I32(v as i32)
            }
        },
        SampleFmt::F32 => {
            let v = match loader.load_u32() {
                Some(x) => x,
                None => {
                    assert(false);
                    0
                },
            };
            Sample::F32(v)
        },
        SampleFmt::F64 => {
            let v = match loader.load_u64() {
                Some(x) => x,
                None => {
                    assert(false);
                    0
                },
            };
            Sample::F64(v)
        },
    }
}

/// A validated reader: a cursor over the source, the format the `fmt `
/// chunk declared, and the byte range of the `data` chunk.
pub struct Reader {
    pub loader: Loader,
    pub format: FileFmt,
    pub begin: usize,
    pub end: usize,
}

impl Reader {
    /// Validity: the data region lies within the source, holds a whole
    /// number of frames, and the cursor never stands before it.
    pub open spec fn wf(&self) -> bool {
        &&& self.loader.wf()
        &&& self.begin <= self.end <= self.loader.data@.len()
        &&& self.begin <= self.loader.pos
        &&& self.format.num_channels >= 1
        &&& (self.end - self.begin) % ((self.format.sample_fmt.size_spec()
            * self.format.num_channels) as int) == 0
    }

    /// Data region length in scalar samples.
    pub open spec fn length(&self) -> int {
        (self.end - self.begin) / (self.format.sample_fmt.size_spec() as int)
    }

    /// Cursor offset within the data region, in scalar samples.
    pub open spec fn position(&self) -> int {
        (self.loader.pos - self.begin) / (self.format.sample_fmt.size_spec() as int)
    }

    /// Parses and validates the source. Succeeds on exactly the byte
    /// sequences `parse_wave` accepts and returns the format and data
    /// region it names; the cursor is left at the end of the source.
    #[verifier::rlimit(100)]
    pub fn from(data: Vec<u8>) -> (r: Option<Reader>)
        ensures
            r is Some <==> parse_wave(data@) is Some,
            r is Some ==> {
                let rd = r.unwrap();
                &&& rd.wf()
                &&& rd.loader.data@ == data@
                &&& rd.loader.pos == data@.len()
                &&& parse_wave(data@) == Some((rd.format, rd.begin as int, rd.end as int))
            },
    {
        let mut loader = Loader::from(data);
        let ghost b = loader.data@;
        let dlen = loader.len();
        let rid = match loader.load_u32() {
            Some(x) => x,
            None => {
                return None;
            },
        };
        let fsize = match loader.load_u32() {
            Some(x) => x,
            None => {
                return None;
            },
        };
        let wid = match loader.load_u32() {
            Some(x) => x,
            None => {
                return None;
            },
        };
        if wid != WAVE_TAG {
            return None;
        }
        let mut st = if rid == RIFF_TAG && fsize as u64 == dlen as u64 {
            ContainerState::Riff
        } else if rid == RF64_TAG && fsize == SIZE_SENTINEL {
            ContainerState::Rf64Pending
        } else {
            return None;
        };
        assert(parse_wave(b) == walk_chunks(b, 12, st, None::<FileFmt>, None::<(int, int)>));
        let mut fmt_opt: Option<FileFmt> = None;
        let mut region: Option<(usize, usize)> = None;
        while loader.end().is_none()
            invariant
                b == data@,
                loader.wf(),
                loader.data@ == b,
                dlen == b.len(),
                walk_chunks(b, loader.pos as int, st, fmt_opt, region_view(region))
                    == parse_wave(b),
                region is Some ==> region.unwrap().0 <= region.unwrap().1 <= b.len(),
            decreases b.len() - loader.pos,
        {
            let ok = process_chunk(&mut loader, &mut st, &mut fmt_opt, &mut region);
            if !ok {
                return None;
            }
        }
        proof {
            lemma_walk_at_end(b, st, fmt_opt, region_view(region));
        }
        let f = match fmt_opt {
            Some(f) => f,
            None => {
                return None;
            },
        };
        let (begin, end) = match region {
            Some(be) => be,
            None => {
                return None;
            },
        };
        let sz = f.sample_fmt().size();
        let ch = f.num_channels() as usize;
        proof {
            assert(sz * ch <= 8 * 0xFFFF) by (nonlinear_arith)
                requires
                    sz <= 8,
                    ch <= 0xFFFF,
            ;
        }
        let bs = sz * ch;
        if bs == 0 {
            return None;
        }
        let blen = end - begin;
        if blen % bs != 0 {
            return None;
        }
        match st {
            ContainerState::Rf64Resolved(_, cnt) => {
                if cnt != (blen / bs) as u64 {
                    return None;
                }
            },
            _ => {},
        }
        proof {
            if f.num_channels == 0 {
                assert(ch == 0);
                assert(bs == sz * 0);
                assert(sz * 0 == 0) by (nonlinear_arith);
                assert(false);
            }
            assert((end - begin) % ((f.sample_fmt.size_spec() * f.num_channels) as int) == 0);
        }
        Some(Reader { loader, format: f, begin, end })
    }

    /// Data region length in scalar samples.
    pub fn len(&self) -> (r: usize)
        requires
            self.wf(),
        ensures
            r == self.length(),
    {
        (self.end - self.begin) / self.format.sample_fmt().size()
    }

    pub fn format(&self) -> (r: FileFmt)
        ensures
            r == self.format,
    {
        self.format
    }

    /// Cursor offset within the data region, in scalar samples.
    pub fn pos(&self) -> (r: usize)
        requires
            self.wf(),
        ensures
            r == self.position(),
    {
        (self.loader.pos() - self.begin) / self.format.sample_fmt().size()
    }

    /// Moves the cursor forward by `n` samples; fails without moving if
    /// that would pass the end of the data region.
    pub fn skip(&mut self, n: usize) -> (r: Option<()>)
        requires
            old(self).wf(),
        ensures
            final(self).wf(),
            final(self).format == old(self).format,
            final(self).begin == old(self).begin,
            final(self).end == old(self).end,
            final(self).loader.data@ == old(self).loader.data@,
            r is Some <==> old(self).loader.pos + n * old(
                self,
            ).format.sample_fmt.size_spec() <= old(self).end,
            r is Some ==> final(self).loader.pos == old(self).loader.pos + n * old(
                self,
            ).format.sample_fmt.size_spec(),
            r is None ==> final(self).loader.pos == old(self).loader.pos,
    {
        let pos = self.loader.pos();
        let size = self.format.sample_fmt().size();
        if pos > self.end {
            return None;
        }
        let avail = self.end - pos;
        proof {
            lemma_count_fits(n as int, size as int, avail as int);
        }
        if n <= avail / size {
            let moved = self.loader.skip(n * size);
            assert(moved is Some);
            Some(())
        } else {
            None
        }
    }

    /// Moves the cursor backward by `n` samples; fails without moving if
    /// that would pass the start of the data region.
    pub fn rewind(&mut self, n: usize) -> (r: Option<()>)
        requires
            old(self).wf(),
        ensures
            final(self).wf(),
            final(self).format == old(self).format,
            final(self).begin == old(self).begin,
            final(self).end == old(self).end,
            final(self).loader.data@ == old(self).loader.data@,
            r is Some <==> old(self).loader.pos >= old(self).begin + n * old(
                self,
            ).format.sample_fmt.size_spec(),
            r is Some ==> final(self).loader.pos == old(self).loader.pos - n * old(
                self,
            ).format.sample_fmt.size_spec(),
            r is None ==> final(self).loader.pos == old(self).loader.pos,
    {
        let pos = self.loader.pos();
        let size = self.format.sample_fmt().size();
        let avail = pos - self.begin;
        proof {
            lemma_count_fits(n as int, size as int, avail as int);
        }
        if n <= avail / size {
            let moved = self.loader.rewind(n * size);
            assert(moved is Some);
            Some(())
        } else {
            None
        }
    }

    /// Places the cursor at absolute sample offset `n`; fails without
    /// moving if `n` lies past the end of the data region. Seeking to
    /// exactly `length()` succeeds with nothing left to read.
    pub fn seek(&mut self, n: usize) -> (r: Option<()>)
        requires
            old(self).wf(),
        ensures
            final(self).wf(),
            final(self).format == old(self).format,
            final(self).begin == old(self).begin,
            final(self).end == old(self).end,
            final(self).loader.data@ == old(self).loader.data@,
            r is Some <==> old(self).begin + n * old(
                self,
            ).format.sample_fmt.size_spec() <= old(self).end,
            r is Some ==> final(self).loader.pos == old(self).begin + n * old(
                self,
            ).format.sample_fmt.size_spec(),
            r is None ==> final(self).loader.pos == old(self).loader.pos,
    {
        let size = self.format.sample_fmt().size();
        let avail = self.end - self.begin;
        proof {
            lemma_count_fits(n as int, size as int, avail as int);
        }
        if n <= avail / size {
            let moved = self.loader.seek(self.begin + n * size);
            assert(moved is Some);
            Some(())
        } else {
            None
        }
    }

    /// Decodes `n` consecutive scalar samples at the cursor and advances
    /// past them; fails without moving if the source would be exhausted.
    pub fn read(&mut self, n: usize) -> (r: Option<Vec<Sample>>)
        requires
            old(self).wf(),
        ensures
            final(self).wf(),
            final(self).format == old(self).format,
            final(self).begin == old(self).begin,
            final(self).end == old(self).end,
            final(self).loader.data@ == old(self).loader.data@,
            r is Some <==> old(self).loader.pos + n * old(
                self,
            ).format.sample_fmt.size_spec() <= old(self).loader.data@.len(),
            r is Some ==> {
                &&& final(self).loader.pos == old(self).loader.pos + n * old(
                    self,
                ).format.sample_fmt.size_spec()
                &&& r.unwrap()@.len() == n
                &&& forall|i: int|
                    0 <= i < n ==> r.unwrap()@[i] == decode_sample(
                        old(self).format.sample_fmt,
                        old(self).loader.data@,
                        old(self).loader.pos + i * old(self).format.sample_fmt.size_spec(),
                    )
            },
            r is None ==> final(self).loader.pos == old(self).loader.pos,
    {
        let pos = self.loader.pos();
        let dlen = self.loader.len();
        let size = self.format.sample_fmt().size();
        let avail = dlen - pos;
        proof {
            lemma_count_fits(n as int, size as int, avail as int);
        }
        if n <= avail / size {
            let ghost b = self.loader.data@;
            let sf = self.format.sample_fmt();
            let mut out: Vec<Sample> = Vec::new();
            let mut i: usize = 0;
            while i < n
                invariant
                    i <= n,
                    self.format == old(self).format,
                    self.begin == old(self).begin,
                    self.end == old(self).end,
                    sf == self.format.sample_fmt,
                    size == sf.size_spec(),
                    b == self.loader.data@,
                    self.loader.wf(),
                    self.loader.pos == pos + i * size,
                    pos + n * size <= b.len(),
                    out@.len() == i,
                    forall|j: int|
                        0 <= j < i ==> out@[j] == decode_sample(sf, b, pos + j * size),
                decreases n - i,
            {
                proof {
                    assert((i + 1) * size == i * size + size) by (nonlinear_arith);
                    assert(i * size <= n * size && (i + 1) * size <= n * size) by (
                    nonlinear_arith)
                        requires
                            0 <= i < n,
                            size >= 1,
                    ;
                }
                let s = read_one(&mut self.loader, sf);
                out.push(s);
                i = i + 1;
            }
            Some(out)
        } else {
            None
        }
    }
}

} // verus!
