use riffwave::format::{AudioFmt, FileFmt, SampleFmt};
use riffwave::reader::Reader;
use riffwave::sample::Sample;
use riffwave::writer::Writer;

fn push_u16(out: &mut Vec<u8>, v: u16) {
    out.push((v & 0xFF) as u8);
    out.push((v >> 8) as u8);
}

fn push_u32(out: &mut Vec<u8>, v: u32) {
    out.push((v & 0xFF) as u8);
    out.push(((v >> 8) & 0xFF) as u8);
    out.push(((v >> 16) & 0xFF) as u8);
    out.push(((v >> 24) & 0xFF) as u8);
}

fn read_u32(b: &[u8], at: usize) -> u32 {
    b[at] as u32 | (b[at + 1] as u32) << 8 | (b[at + 2] as u32) << 16 | (b[at + 3] as u32) << 24
}

fn read_u64(b: &[u8], at: usize) -> u64 {
    read_u32(b, at) as u64 | (read_u32(b, at + 4) as u64) << 32
}

/// A minimal RIFF/WAVE file: optionally an opaque chunk between `fmt ` and
/// `data`, a `fmt ` chunk with the given fields, and the given data bytes.
fn build_riff(
    audio_format: u16,
    channels: u16,
    rate: u32,
    byte_rate: u32,
    block_align: u16,
    bits: u16,
    opaque: Option<(&[u8; 4], &[u8])>,
    data: &[u8],
) -> Vec<u8> {
    let mut out = Vec::new();
    out.extend_from_slice(b"RIFF");
    push_u32(&mut out, 0); // patched below
    out.extend_from_slice(b"WAVE");
    out.extend_from_slice(b"fmt ");
    push_u32(&mut out, 16);
    push_u16(&mut out, audio_format);
    push_u16(&mut out, channels);
    push_u32(&mut out, rate);
    push_u32(&mut out, byte_rate);
    push_u16(&mut out, block_align);
    push_u16(&mut out, bits);
    if let Some((tag, body)) = opaque {
        out.extend_from_slice(&tag[..]);
        push_u32(&mut out, body.len() as u32);
        out.extend_from_slice(body);
    }
    out.extend_from_slice(b"data");
    push_u32(&mut out, data.len() as u32);
    out.extend_from_slice(data);
    let total = out.len() as u32;
    out[4..8].copy_from_slice(&total.to_le_bytes());
    out
}

fn decode_f32(s: &Sample) -> f32 {
    match *s {
        Sample::U8(v) => v as f32 * (2.0 / u8::MAX as f32) - 1.0,
        Sample::I16(v) => v as f32 / i16::MAX as f32,
        Sample::I24(v) => v as f32 / 0x7F_FFFF as f32,
        Sample::I32(v) => v as f32 / i32::MAX as f32,
        Sample::F32(bits) => f32::from_bits(bits),
        Sample::F64(bits) => f64::from_bits(bits) as f32,
    }
}

fn encode_f32(x: f32, sf: SampleFmt) -> Sample {
    match sf {
        SampleFmt::U8 => Sample::U8(((x + 1.0) * (u8::MAX as f32 / 2.0)) as u8),
        SampleFmt::I16 => Sample::I16((x * i16::MAX as f32) as i16),
        SampleFmt::I24 => Sample::I24((x * 0x7F_FFFF as f32) as i32),
        SampleFmt::I32 => Sample::I32((x * i32::MAX as f32) as i32),
        SampleFmt::F32 => Sample::F32(x.to_bits()),
        SampleFmt::F64 => Sample::F64((x as f64).to_bits()),
    }
}

#[test]
fn resolve_supported_encodings() {
    assert_eq!(SampleFmt::new(AudioFmt::Pcm, 8), Some(SampleFmt::U8));
    assert_eq!(SampleFmt::new(AudioFmt::Pcm, 16), Some(SampleFmt::I16));
    assert_eq!(SampleFmt::new(AudioFmt::Pcm, 24), Some(SampleFmt::I24));
    assert_eq!(SampleFmt::new(AudioFmt::Pcm, 32), Some(SampleFmt::I32));
    assert_eq!(SampleFmt::new(AudioFmt::IeeeFloat, 32), Some(SampleFmt::F32));
    assert_eq!(SampleFmt::new(AudioFmt::IeeeFloat, 64), Some(SampleFmt::F64));
}

#[test]
fn resolve_unsupported_combinations() {
    assert_eq!(SampleFmt::new(AudioFmt::Pcm, 12), None);
    assert_eq!(SampleFmt::new(AudioFmt::IeeeFloat, 16), None);
    assert_eq!(SampleFmt::new(AudioFmt::Pcm, 64), None);
    assert_eq!(SampleFmt::new(AudioFmt::IeeeFloat, 8), None);
    assert_eq!(AudioFmt::new(2), None);
    assert_eq!(AudioFmt::new(1), Some(AudioFmt::Pcm));
    assert_eq!(AudioFmt::new(3), Some(AudioFmt::IeeeFloat));
}

#[test]
fn derived_quantities() {
    let f = FileFmt::new(SampleFmt::I16, 2, 44100);
    assert_eq!(f.byte_rate(), 176400);
    assert_eq!(f.block_align(), 4);
    assert_eq!(f.sample_fmt().size(), 2);
    assert_eq!(f.sample_fmt().bit_depth(), 16);
}

#[test]
fn scenario_two_channel_silence() {
    let fmt = FileFmt::new(SampleFmt::I16, 2, 44100);
    let mut w = Writer::to(Vec::new(), fmt);
    let samples: Vec<Sample> = vec![Sample::I16(0); 20];
    w.write(&samples).unwrap();
    w.finalize().unwrap();
    let bytes = w.into_bytes();
    assert_eq!(bytes.len(), 84); // 44-byte header + 40 bytes of data
    assert_eq!(read_u32(&bytes, 4), 84); // declared total size
    assert_eq!(read_u32(&bytes, 40), 40); // declared data size
    let mut r = Reader::from(bytes).unwrap();
    assert_eq!(r.len(), 20);
    r.seek(0).unwrap();
    let got = r.read(20).unwrap();
    for s in &got {
        assert_eq!(*s, Sample::I16(0));
        assert_eq!(decode_f32(s), 0.0);
    }
}

fn round_trip(sf: SampleFmt, channels: u16, inputs: &[f32], tolerance: f32) {
    let fmt = FileFmt::new(sf, channels, 8000);
    let mut w = Writer::to(Vec::new(), fmt);
    let samples: Vec<Sample> = inputs.iter().map(|x| encode_f32(*x, sf)).collect();
    w.write(&samples).unwrap();
    w.finalize().unwrap();
    let mut r = Reader::from(w.into_bytes()).unwrap();
    assert_eq!(r.len(), inputs.len());
    r.seek(0).unwrap();
    let got = r.read(inputs.len()).unwrap();
    for (want, have) in inputs.iter().zip(got.iter()) {
        let back = decode_f32(have);
        assert!(
            (back - want).abs() <= tolerance,
            "{want} came back as {back} under {sf:?}",
            sf = have
        );
    }
}

#[test]
fn round_trip_u8() {
    round_trip(SampleFmt::U8, 1, &[-1.0, -0.5, 0.0, 0.25, 1.0], 2.0 / 256.0);
}

#[test]
fn round_trip_i16() {
    round_trip(SampleFmt::I16, 2, &[-1.0, -0.5, 0.0, 0.25, 0.75, 1.0], 2.0 / 65536.0);
}

#[test]
fn round_trip_i24() {
    round_trip(SampleFmt::I24, 1, &[-1.0, -0.5, 0.0, 0.25, 1.0], 2.0 / 16777216.0);
}

#[test]
fn round_trip_i32() {
    round_trip(SampleFmt::I32, 1, &[-1.0, -0.5, 0.0, 0.25, 1.0], 1e-6);
}

#[test]
fn round_trip_f32_exact() {
    let inputs = [-1.0f32, -0.333, 0.0, 0.125, 0.987, 1.0];
    let fmt = FileFmt::new(SampleFmt::F32, 1, 48000);
    let mut w = Writer::to(Vec::new(), fmt);
    let samples: Vec<Sample> = inputs.iter().map(|x| Sample::F32(x.to_bits())).collect();
    w.write(&samples).unwrap();
    w.finalize().unwrap();
    let mut r = Reader::from(w.into_bytes()).unwrap();
    r.seek(0).unwrap();
    let got = r.read(inputs.len()).unwrap();
    for (want, have) in inputs.iter().zip(got.iter()) {
        assert_eq!(decode_f32(have), *want);
    }
}

#[test]
fn round_trip_f64_exact() {
    round_trip(SampleFmt::F64, 1, &[-1.0, -0.25, 0.0, 0.5, 1.0], 0.0);
}

#[test]
fn riff_declared_size_matches_length() {
    let fmt = FileFmt::new(SampleFmt::U8, 1, 8000);
    let mut w = Writer::to(Vec::new(), fmt);
    w.write(&vec![Sample::U8(7); 13]).unwrap();
    w.finalize().unwrap();
    let bytes = w.into_bytes();
    assert_eq!(read_u32(&bytes, 4) as usize, bytes.len());
}

#[test]
fn rf64_ds64_fields_after_finalize() {
    let fmt = FileFmt::new(SampleFmt::I16, 1, 8000);
    let mut w = Writer::to_rf64(Vec::new(), fmt);
    w.write(&vec![Sample::I16(-2); 5]).unwrap();
    w.finalize().unwrap();
    let bytes = w.into_bytes();
    assert_eq!(bytes.len(), 90); // 80-byte preamble + 10 bytes of data
    assert_eq!(read_u64(&bytes, 20), 90); // file size
    assert_eq!(read_u64(&bytes, 28), 10); // data size
    assert_eq!(read_u64(&bytes, 36), 5); // sample count
    assert_eq!(read_u32(&bytes, 76), 0xFFFF_FFFF); // data size stays sentinel
    let mut r = Reader::from(bytes).unwrap();
    assert_eq!(r.len(), 5);
    r.seek(0).unwrap();
    assert_eq!(r.read(5).unwrap(), vec![Sample::I16(-2); 5]);
}

#[test]
fn malformed_byte_rate_rejected() {
    let good = build_riff(1, 2, 44100, 176400, 4, 16, None, &[0u8; 8]);
    assert!(Reader::from(good).is_some());
    let bad = build_riff(1, 2, 44100, 176401, 4, 16, None, &[0u8; 8]);
    assert!(Reader::from(bad).is_none());
}

#[test]
fn malformed_block_align_rejected() {
    let bad = build_riff(1, 2, 44100, 176400, 5, 16, None, &[0u8; 8]);
    assert!(Reader::from(bad).is_none());
}

#[test]
fn unsupported_format_code_rejected() {
    let bad = build_riff(2, 1, 8000, 16000, 2, 16, None, &[0u8; 4]);
    assert!(Reader::from(bad).is_none());
}

#[test]
fn boundary_seek_and_skip() {
    let file = build_riff(1, 1, 8000, 16000, 2, 16, None, &[0u8; 12]);
    let mut r = Reader::from(file).unwrap();
    let n = r.len();
    assert_eq!(n, 6);
    assert!(r.seek(n).is_some()); // cursor at exact end
    assert_eq!(r.pos(), n);
    assert!(r.skip(1).is_none()); // nothing past the end
    assert!(r.seek(n + 1).is_none()); // one past the end fails
    assert!(r.seek(0).is_some());
    assert!(r.rewind(1).is_none()); // nothing before the start
    assert!(r.skip(2).is_some());
    assert!(r.rewind(1).is_some());
    assert_eq!(r.pos(), 1);
}

#[test]
fn opaque_chunk_is_skipped() {
    let data = [1u8, 0, 2, 0, 3, 0, 4, 0];
    let plain = build_riff(1, 2, 44100, 176400, 4, 16, None, &data);
    let listed = build_riff(1, 2, 44100, 176400, 4, 16, Some((b"LIST", &[9u8; 11])), &data);
    let mut a = Reader::from(plain).unwrap();
    let mut b = Reader::from(listed).unwrap();
    assert_eq!(a.format(), b.format());
    assert_eq!(a.len(), b.len());
    a.seek(0).unwrap();
    b.seek(0).unwrap();
    assert_eq!(a.read(4).unwrap(), b.read(4).unwrap());
}

#[test]
fn ds64_inside_riff_rejected() {
    let mut out = Vec::new();
    out.extend_from_slice(b"RIFF");
    push_u32(&mut out, 0);
    out.extend_from_slice(b"WAVE");
    out.extend_from_slice(b"ds64");
    push_u32(&mut out, 28);
    out.extend_from_slice(&[0u8; 28]);
    let total = out.len() as u32;
    out[4..8].copy_from_slice(&total.to_le_bytes());
    assert!(Reader::from(out).is_none());
}

#[test]
fn wrong_wave_tag_rejected() {
    let mut file = build_riff(1, 1, 8000, 8000, 1, 8, None, &[0u8; 4]);
    file[8] = b'X';
    assert!(Reader::from(file).is_none());
}

#[test]
fn wrong_total_size_rejected() {
    let mut file = build_riff(1, 1, 8000, 8000, 1, 8, None, &[0u8; 4]);
    let wrong = (file.len() as u32 + 1).to_le_bytes();
    file[4..8].copy_from_slice(&wrong);
    assert!(Reader::from(file).is_none());
}

#[test]
fn ragged_data_region_rejected() {
    // 5 data bytes cannot hold whole frames of a 2-byte, 1-channel format.
    let bad = build_riff(1, 1, 8000, 16000, 2, 16, None, &[0u8; 5]);
    assert!(Reader::from(bad).is_none());
}

#[test]
fn i24_sign_extension() {
    let data = [0xFF, 0xFF, 0xFF, 0x00, 0x00, 0x80, 0x01, 0x00, 0x00];
    let file = build_riff(1, 1, 8000, 24000, 3, 24, None, &data);
    let mut r = Reader::from(file).unwrap();
    r.seek(0).unwrap();
    let got = r.read(3).unwrap();
    assert_eq!(got[0], Sample::I24(-1));
    assert_eq!(got[1], Sample::I24(-0x80_0000));
    assert_eq!(got[2], Sample::I24(1));
}

#[test]
fn u8_decode_is_affine() {
    let file = build_riff(1, 1, 8000, 8000, 1, 8, None, &[0, 255, 128]);
    let mut r = Reader::from(file).unwrap();
    r.seek(0).unwrap();
    let got = r.read(3).unwrap();
    assert_eq!(decode_f32(&got[0]), -1.0);
    assert_eq!(decode_f32(&got[1]), 1.0);
    assert!((decode_f32(&got[2]) - 128.0 * (2.0 / 255.0) + 1.0).abs() < 1e-6);
}

#[test]
fn i16_wire_bytes() {
    let fmt = FileFmt::new(SampleFmt::I16, 1, 8000);
    let mut w = Writer::to(Vec::new(), fmt);
    w.write(&vec![Sample::I16(-1), Sample::I16(0x1234)]).unwrap();
    w.finalize().unwrap();
    let bytes = w.into_bytes();
    assert_eq!(&bytes[44..48], &[0xFF, 0xFF, 0x34, 0x12]);
}

#[test]
fn writer_sparse_skip_extends_length() {
    let fmt = FileFmt::new(SampleFmt::U8, 1, 8000);
    let mut w = Writer::to(Vec::new(), fmt);
    w.skip(3).unwrap();
    assert_eq!(w.len(), 3);
    assert_eq!(w.pos(), 3);
    w.write(&vec![Sample::U8(9)]).unwrap();
    assert_eq!(w.len(), 4);
    w.finalize().unwrap();
    let bytes = w.into_bytes();
    assert_eq!(read_u32(&bytes, 40), 4);
}

#[test]
fn writer_rewind_before_data_fails() {
    let fmt = FileFmt::new(SampleFmt::I16, 1, 8000);
    let mut w = Writer::to(Vec::new(), fmt);
    assert!(w.rewind(1).is_none());
    w.write(&vec![Sample::I16(5)]).unwrap();
    assert!(w.rewind(1).is_some());
    assert_eq!(w.pos(), 0);
    assert!(w.rewind(1).is_none());
}

#[test]
fn loader_cursor_and_loads() {
    let mut l = riffwave::loader::Loader::from(vec![0x34, 0x12, 0xFF, 0x00]);
    assert_eq!(l.len(), 4);
    assert!(l.end().is_none());
    assert_eq!(l.load_u16(), Some(0x1234));
    assert_eq!(l.pos(), 2);
    assert_eq!(l.load_u8(), Some(0xFF));
    assert!(l.rewind(1).is_some());
    assert_eq!(l.load_u16(), Some(0x00FF));
    assert!(l.end().is_some());
    assert_eq!(l.load_u8(), None);
    assert!(l.seek(5).is_none());
    assert!(l.seek(0).is_some());
    let mut buf = vec![0u8; 4];
    assert!(l.load_to(&mut buf).is_some());
    assert_eq!(buf, vec![0x34, 0x12, 0xFF, 0x00]);
    assert!(l.skip(1).is_none());
}

#[test]
fn reader_position_tracks_samples() {
    let file = build_riff(1, 2, 44100, 176400, 4, 16, None, &[0u8; 16]);
    let mut r = Reader::from(file).unwrap();
    r.seek(0).unwrap();
    assert_eq!(r.pos(), 0);
    r.skip(3).unwrap();
    assert_eq!(r.pos(), 3);
    r.read(2).unwrap();
    assert_eq!(r.pos(), 5);
}
