//! Audio format value types: the container-level format code, the
//! per-sample encoding, and the stream format (encoding, channels, rate)
//! with its derived byte-rate and block-align quantities.
use vstd::prelude::*;

verus! {

/// Container-level format code class: linear PCM or IEEE float.
#[derive(Clone, Copy, Debug, PartialEq, Eq, Structural)]
pub enum AudioFmt {
    Pcm,
    IeeeFloat,
}

/// One of the six supported on-disk sample encodings.
#[derive(Clone, Copy, Debug, PartialEq, Eq, Structural)]
pub enum SampleFmt {
    U8,
    I16,
    I24,
    I32,
    F32,
    F64,
}

/// A validated stream format: sample encoding, channel count, sample rate.
#[derive(Clone, Copy, Debug, PartialEq, Eq, Structural)]
pub struct FileFmt {
    pub sample_fmt: SampleFmt,
    pub num_channels: u16,
    pub sample_rate: u32,
}

impl AudioFmt {
    /// The numeric code this class is stored as in a `fmt ` chunk.
    pub open spec fn code_spec(&self) -> u16 {
        match self {
            AudioFmt::Pcm => 1,
            AudioFmt::IeeeFloat => 3,
        }
    }

    /// Maps a `fmt ` chunk's audio-format code to its class; every code
    /// other than linear PCM and IEEE float is unsupported.
    pub fn new(n: u16) -> (r: Option<AudioFmt>)
        ensures
            r == (if n == 1 {
                Some(AudioFmt::Pcm)
            } else if n == 3 {
                Some(AudioFmt::IeeeFloat)
            } else {
                None::<AudioFmt>
            }),
    {
        match n {
            1 => Some(AudioFmt::Pcm),
            3 => Some(AudioFmt::IeeeFloat),
            _ => None,
        }
    }

    /// The numeric code of this class.
    pub fn code(&self) -> (r: u16)
        ensures
            r == self.code_spec(),
    {
        match self {
            AudioFmt::Pcm => 1,
            AudioFmt::IeeeFloat => 3,
        }
    }
}

impl SampleFmt {
    /// Bit depth of one encoded scalar sample.
    pub open spec fn bit_depth_spec(&self) -> u16 {
        match self {
            SampleFmt::U8 => 8,
            SampleFmt::I16 => 16,
            SampleFmt::I24 => 24,
            SampleFmt::I32 => 32,
            SampleFmt::F32 => 32,
            SampleFmt::F64 => 64,
        }
    }

    /// Byte size of one encoded scalar sample.
    pub open spec fn size_spec(&self) -> usize {
        match self {
            SampleFmt::U8 => 1,
            SampleFmt::I16 => 2,
            SampleFmt::I24 => 3,
            SampleFmt::I32 => 4,
            SampleFmt::F32 => 4,
            SampleFmt::F64 => 8,
        }
    }

    /// Container code class this encoding belongs to.
    pub open spec fn audio_format_spec(&self) -> AudioFmt {
        match self {
            SampleFmt::U8 => AudioFmt::Pcm,
            SampleFmt::I16 => AudioFmt::Pcm,
            SampleFmt::I24 => AudioFmt::Pcm,
            SampleFmt::I32 => AudioFmt::Pcm,
            SampleFmt::F32 => AudioFmt::IeeeFloat,
            SampleFmt::F64 => AudioFmt::IeeeFloat,
        }
    }

    /// The partial inverse of (class, bit depth): exactly the six supported
    /// combinations resolve; everything else (PCM 12-bit, float 16-bit, ...)
    /// is rejected.
    pub fn new(audio_format: AudioFmt, bit_depth: u16) -> (r: Option<SampleFmt>)
        ensures
            r == SampleFmt::resolve_spec(audio_format, bit_depth),
    {
        match (audio_format, bit_depth) {
            (AudioFmt::Pcm, 8) => Some(SampleFmt::U8),
            (AudioFmt::Pcm, 16) => Some(SampleFmt::I16),
            (AudioFmt::Pcm, 24) => Some(SampleFmt::I24),
            (AudioFmt::Pcm, 32) => Some(SampleFmt::I32),
            (AudioFmt::IeeeFloat, 32) => Some(SampleFmt::F32),
            (AudioFmt::IeeeFloat, 64) => Some(SampleFmt::F64),
            _ => None,
        }
    }

    /// What `(class, bit depth)` resolves to, as a total spec map.
    pub open spec fn resolve_spec(audio_format: AudioFmt, bit_depth: u16) -> Option<SampleFmt> {
        if audio_format == AudioFmt::Pcm && bit_depth == 8 {
            Some(SampleFmt::U8)
        } else if audio_format == AudioFmt::Pcm && bit_depth == 16 {
            Some(SampleFmt::I16)
        } else if audio_format == AudioFmt::Pcm && bit_depth == 24 {
            Some(SampleFmt::I24)
        } else if audio_format == AudioFmt::Pcm && bit_depth == 32 {
            Some(SampleFmt::I32)
        } else if audio_format == AudioFmt::IeeeFloat && bit_depth == 32 {
            Some(SampleFmt::F32)
        } else if audio_format == AudioFmt::IeeeFloat && bit_depth == 64 {
            Some(SampleFmt::F64)
        } else {
            None
        }
    }

    pub fn bit_depth(&self) -> (r: u16)
        ensures
            r == self.bit_depth_spec(),
    {
        match self {
            SampleFmt::U8 => 8,
            SampleFmt::I16 => 16,
            SampleFmt::I24 => 24,
            SampleFmt::I32 => 32,
            SampleFmt::F32 => 32,
            SampleFmt::F64 => 64,
        }
    }

    pub fn size(&self) -> (r: usize)
        ensures
            r == self.size_spec(),
    {
        match self {
            SampleFmt::U8 => 1,
            SampleFmt::I16 => 2,
            SampleFmt::I24 => 3,
            SampleFmt::I32 => 4,
            SampleFmt::F32 => 4,
            SampleFmt::F64 => 8,
        }
    }

    pub fn audio_format(&self) -> (r: AudioFmt)
        ensures
            r == self.audio_format_spec(),
    {
        match self {
            SampleFmt::U8 => AudioFmt::Pcm,
            SampleFmt::I16 => AudioFmt::Pcm,
            SampleFmt::I24 => AudioFmt::Pcm,
            SampleFmt::I32 => AudioFmt::Pcm,
            SampleFmt::F32 => AudioFmt::IeeeFloat,
            SampleFmt::F64 => AudioFmt::IeeeFloat,
        }
    }
}

impl FileFmt {
    /// Mathematical byte rate: `sample_rate * channels * bit_depth / 8`.
    pub open spec fn byte_rate_spec(&self) -> int {
        self.sample_rate * self.num_channels * self.sample_fmt.bit_depth_spec() / 8
    }

    /// Mathematical block align: `channels * bytes_per_sample`.
    pub open spec fn block_align_spec(&self) -> int {
        self.num_channels * self.sample_fmt.size_spec()
    }

    /// The derived quantities fit the fixed-width header fields they are
    /// stored in; the two derivation methods ask for this.
    pub open spec fn derived_fit(&self) -> bool {
        &&& self.sample_rate * self.num_channels * self.sample_fmt.bit_depth_spec()
            <= u32::MAX
        &&& self.num_channels * self.sample_fmt.size_spec() <= u16::MAX
    }

    pub fn new(sample_fmt: SampleFmt, num_channels: u16, sample_rate: u32) -> (r: FileFmt)
        ensures
            r == (FileFmt { sample_fmt, num_channels, sample_rate }),
    {
        FileFmt { sample_fmt, num_channels, sample_rate }
    }

    pub fn sample_fmt(&self) -> (r: SampleFmt)
        ensures
            r == self.sample_fmt,
    {
        self.sample_fmt
    }

    pub fn num_channels(&self) -> (r: u16)
        ensures
            r == self.num_channels,
    {
        self.num_channels
    }

    pub fn sample_rate(&self) -> (r: u32)
        ensures
            r == self.sample_rate,
    {
        self.sample_rate
    }

    /// Average byte rate of the stream; the intermediate product must fit a
    /// `u32`, as it does for every format a header can declare consistently.
    pub fn byte_rate(&self) -> (r: u32)
        requires
            self.derived_fit(),
        ensures
            r == self.byte_rate_spec(),
    {
        proof {
            let r = self.sample_rate as int;
            let c = self.num_channels as int;
            let b = self.sample_fmt.bit_depth_spec() as int;
            assert(b >= 1);
            assert(r * c <= r * c * b) by (nonlinear_arith)
                requires
                    r >= 0,
                    c >= 0,
                    b >= 1,
            ;
        }
        self.sample_rate * self.num_channels as u32 * self.sample_fmt.bit_depth() as u32 / 8
    }

    /// Byte stride of one frame (all channels of one instant).
    pub fn block_align(&self) -> (r: u16)
        requires
            self.derived_fit(),
        ensures
            r == self.block_align_spec(),
    {
        self.num_channels * self.sample_fmt.size() as u16
    }
}

} // verus!
