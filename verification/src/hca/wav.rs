//! WAV files as input of the HCA encoder.

use vstd::prelude::*;
use crate::bytes::{i16_of, u16_le, u32_le};
use crate::hca::encoder::HcaEncoderError;

verus! {

/// Where the samples of a WAV file stand and what they are.
#[derive(Debug, Clone, Copy, PartialEq, Eq, Structural)]
pub struct WavLayout {
    pub channels: u32,
    pub sample_rate: u32,
    pub bits_per_sample: u32,
    pub data_start: usize,
    pub data_len: usize,
}

/// Whether four letters stand at a place.
pub open spec fn letters_at(d: Seq<u8>, at: int, id: Seq<u8>) -> bool {
    d.subrange(at, at + 4) == id
}

/// The letters `RIFF`.
pub open spec fn riff_id() -> Seq<u8> {
    seq![0x52u8, 0x49, 0x46, 0x46]
}

/// The letters `WAVE`.
pub open spec fn wave_id() -> Seq<u8> {
    seq![0x57u8, 0x41, 0x56, 0x45]
}

/// The letters `fmt` and a blank.
pub open spec fn wav_fmt_id() -> Seq<u8> {
    seq![0x66u8, 0x6d, 0x74, 0x20]
}

/// The letters `data`.
pub open spec fn data_id() -> Seq<u8> {
    seq![0x64u8, 0x61, 0x74, 0x61]
}

/// The length that the chunk at a place gives.
pub open spec fn chunk_len(d: Seq<u8>, pos: int) -> int {
    u32_le(d.subrange(pos + 4, pos + 8)) as int
}

/// Where the chunk behind the one at a place stands: lengths are padded to
/// even ones.
pub open spec fn next_chunk(d: Seq<u8>, pos: int) -> int {
    pos + 8 + chunk_len(d, pos) + chunk_len(d, pos) % 2
}

/// Whether a format chunk stands at a place.
pub open spec fn is_fmt(d: Seq<u8>, pos: int) -> bool {
    letters_at(d, pos, wav_fmt_id()) && chunk_len(d, pos) >= 16
}

/// The layout that the chunks from `pos` on give, over what earlier chunks
/// said; nothing where a format chunk is cut off.
pub open spec fn wav_from(d: Seq<u8>, pos: int, l: WavLayout) -> Option<WavLayout>
    decreases d.len() + 0x2_0000_0000 - pos,
{
    if pos < 0 || pos + 8 > d.len() {
        Some(l)
    } else if is_fmt(d, pos) {
        if pos + 24 > d.len() {
            None
        } else {
            wav_from(
                d,
                next_chunk(d, pos),
                WavLayout {
                    channels: u16_le(d.subrange(pos + 10, pos + 12)) as u32,
                    sample_rate: u32_le(d.subrange(pos + 12, pos + 16)),
                    bits_per_sample: u16_le(d.subrange(pos + 22, pos + 24)) as u32,
                    ..l
                },
            )
        }
    } else if letters_at(d, pos, data_id()) {
        Some(
            WavLayout {
                data_start: (pos + 8) as usize,
                data_len: chunk_len(d, pos) as usize,
                ..l
            },
        )
    } else {
        wav_from(d, next_chunk(d, pos), l)
    }
}

/// A layout before any chunk was read.
pub open spec fn wav_defaults() -> WavLayout {
    WavLayout {
        channels: 2,
        sample_rate: 44100,
        bits_per_sample: 16,
        data_start: 0,
        data_len: 0,
    }
}

/// Whether bytes start like a WAV file.
pub open spec fn is_wav(d: Seq<u8>) -> bool {
    d.len() >= 44 && letters_at(d, 0, riff_id()) && letters_at(d, 8, wave_id())
}

/// The layout of a WAV file; nothing where its format chunk is cut off.
pub open spec fn wav_layout(d: Seq<u8>) -> Option<WavLayout> {
    wav_from(d, 12, wav_defaults())
}

/// Whether four letters stand at a place.
fn has_letters(d: &[u8], at: usize, a: u8, b: u8, c: u8, e: u8) -> (r: bool)
    requires
        at + 4 <= d@.len(),
    ensures
        r == letters_at(d@, at as int, seq![a, b, c, e]),
{
    assert(d@.len() == d.len());
    let r = d[at] == a && d[at + 1] == b && d[at + 2] == c && d[at + 3] == e;
    proof {
        let s = d@.subrange(at as int, at + 4);
        let w = seq![a, b, c, e];
        assert(w[0] == a && w[1] == b && w[2] == c && w[3] == e);
        if r {
            assert(s =~= w);
        } else {
            assert(s[0] != w[0] || s[1] != w[1] || s[2] != w[2] || s[3] != w[3]);
        }
    }
    r
}

fn word16(d: &[u8], at: usize) -> (r: u16)
    requires
        at + 2 <= d@.len(),
    ensures
        r == u16_le(d@.subrange(at as int, at + 2)),
{
    assert(d@.len() == d.len());
    let b = crate::bytes::copy_range(d, at, at + 2);
    crate::bytes::read_u16_le(b.as_slice())
}

fn word32(d: &[u8], at: usize) -> (r: u32)
    requires
        at + 4 <= d@.len(),
    ensures
        r == u32_le(d@.subrange(at as int, at + 4)),
{
    assert(d@.len() == d.len());
    let b = crate::bytes::copy_range(d, at, at + 4);
    crate::bytes::read_u32_le(b.as_slice())
}

/// Finds the format and the samples of a WAV file; nothing where its format
/// chunk is cut off.
pub fn scan_wav(d: &[u8]) -> (r: Option<WavLayout>)
    requires
        d@.len() <= usize::MAX / 2,
    ensures
        r == wav_layout(d@),
{
    let mut l = WavLayout {
        channels: 2,
        sample_rate: 44100,
        bits_per_sample: 16,
        data_start: 0,
        data_len: 0,
    };
    let mut pos: u64 = 12;
    let len: u64 = d.len() as u64;
    while pos + 8 <= len
        invariant
            len == d@.len(),
            len <= usize::MAX / 2,
            12 <= pos <= len + 0x2_0000_0000,
            wav_layout(d@) == wav_from(d@, pos as int, l),
        decreases len + 0x2_0000_0000 - pos,
    {
        let at: usize = pos as usize;
        let size: u64 = word32(d, at + 4) as u64;
        let is_format = has_letters(d, at, 0x66, 0x6d, 0x74, 0x20) && size >= 16;
        if is_format {
            if pos + 24 > len {
                return None;
            }
            l = WavLayout {
                channels: word16(d, at + 10) as u32,
                sample_rate: word32(d, at + 12),
                bits_per_sample: word16(d, at + 22) as u32,
                ..l
            };
        } else if has_letters(d, at, 0x64, 0x61, 0x74, 0x61) {
            return Some(WavLayout { data_start: at + 8, data_len: size as usize, ..l });
        }
        pos = pos + 8 + size + size % 2;
    }
    Some(l)
}

/// The sign-extended value of 24 bits.
pub open spec fn i24_of(v: int) -> int {
    if v < 0x80_0000 { v } else { v - 0x100_0000 }
}

/// A sample as it is stored: the signed number for 16 and 24 bits, the bit
/// pattern of a single-precision number for 32 bits, zero for other widths.
pub open spec fn raw_sample(d: Seq<u8>, at: int, bits: u32) -> i64 {
    if bits == 16 {
        i16_of(u16_le(d.subrange(at, at + 2))) as i64
    } else if bits == 24 {
        i24_of(d[at] + d[at + 1] * 0x100 + d[at + 2] * 0x1_0000) as i64
    } else if bits == 32 {
        u32_le(d.subrange(at, at + 4)) as i64
    } else {
        0
    }
}

/// The number of whole samples of a layout that lie within the file.
pub open spec fn sample_count(d: Seq<u8>, l: WavLayout) -> int {
    let size = (l.bits_per_sample / 8) as int;
    let said = l.data_len as int / size;
    let there = (d.len() - l.data_start) / size;
    if said < there { said } else { there }
}

/// The samples of a layout.
pub open spec fn raw_samples(d: Seq<u8>, l: WavLayout) -> Seq<i64> {
    let size = (l.bits_per_sample / 8) as int;
    Seq::new(
        sample_count(d, l) as nat,
        |i: int| raw_sample(d, l.data_start + i * size, l.bits_per_sample),
    )
}

/// A WAV file that was read.
#[derive(Debug)]
pub struct WavAudio {
    pub channels: u32,
    pub sample_rate: u32,
    pub bits_per_sample: u32,
    pub samples: Vec<i64>,
}

/// Reads the samples of a WAV file as they are stored.
pub fn parse_wav(d: &[u8]) -> (r: Result<WavAudio, HcaEncoderError>)
    requires
        d@.len() <= usize::MAX / 2,
        is_wav(d@) ==> wav_layout(d@) is Some,
        is_wav(d@) && wav_layout(d@)->Some_0.data_len > 0 ==> wav_layout(
            d@,
        )->Some_0.bits_per_sample >= 8,
    ensures
        if !is_wav(d@) || wav_layout(d@)->Some_0.data_len == 0 {
            r is Err && r->Err_0 == HcaEncoderError::NoSamples
        } else {
            let l = wav_layout(d@)->Some_0;
            &&& r is Ok
            &&& r->Ok_0.channels == l.channels
            &&& r->Ok_0.sample_rate == l.sample_rate
            &&& r->Ok_0.bits_per_sample == l.bits_per_sample
            &&& r->Ok_0.samples@ == raw_samples(d@, l)
        },
{
    if d.len() < 44 {
        return Err(HcaEncoderError::NoSamples);
    }
    let riff = has_letters(d, 0, 0x52, 0x49, 0x46, 0x46);
    let wave = has_letters(d, 8, 0x57, 0x41, 0x56, 0x45);
    if !riff || !wave {
        return Err(HcaEncoderError::NoSamples);
    }
    let l = match scan_wav(d) {
        Some(l) => l,
        None => {
            return Err(HcaEncoderError::NoSamples);
        },
    };
    if l.data_len == 0 {
        return Err(HcaEncoderError::NoSamples);
    }
    proof {
        data_within(d@, 12, wav_defaults());
    }
    let size: usize = (l.bits_per_sample / 8) as usize;
    let said: usize = l.data_len / size;
    let there: usize = (d.len() - l.data_start) / size;
    let count: usize = if said < there { said } else { there };
    assert(count * size <= d@.len() - l.data_start) by (nonlinear_arith)
        requires
            count <= (d@.len() - l.data_start) / size as int,
            size >= 1,
            d@.len() - l.data_start >= 0,
    ;
    let mut samples: Vec<i64> = Vec::new();
    let mut i: usize = 0;
    let mut at: usize = l.data_start;
    while i < count
        invariant
            i <= count,
            size == l.bits_per_sample / 8,
            at == l.data_start + i * size,
            l.data_start + count * size <= d@.len(),
            d@.len() <= usize::MAX / 2,
            samples@ =~= Seq::new(
                i as nat,
                |j: int| raw_sample(d@, l.data_start + j * size, l.bits_per_sample),
            ),
        decreases count - i,
    {
        assert(i * size + size <= count * size && (i + 1) * size == i * size + size)
            by (nonlinear_arith)
            requires
                i + 1 <= count,
                size >= 0,
        ;
        let v: i64 = match l.bits_per_sample {
            16 => {
                let w: u16 = word16(d, at);
                if w < 0x8000 {
                    w as i64
                } else {
                    w as i64 - 0x1_0000
                }
            },
            24 => {
                let w: i64 = d[at] as i64 + d[at + 1] as i64 * 0x100 + d[at + 2] as i64 * 0x1_0000;
                if w < 0x80_0000 {
                    w
                } else {
                    w - 0x100_0000
                }
            },
            32 => word32(d, at) as i64,
            _ => 0,
        };
        samples.push(v);
        at = at + size;
        i += 1;
    }
    Ok(
        WavAudio {
            channels: l.channels,
            sample_rate: l.sample_rate,
            bits_per_sample: l.bits_per_sample,
            samples,
        },
    )
}

/// The samples of a layout that was found start within the file.
proof fn data_within(d: Seq<u8>, pos: int, l: WavLayout)
    requires
        pos >= 12,
        l.data_start == 0,
        l.data_len == 0,
        d.len() <= usize::MAX / 2,
    ensures
        wav_from(d, pos, l) is Some ==> {
            let f = wav_from(d, pos, l)->Some_0;
            f.data_start <= d.len()
        },
    decreases d.len() + 0x2_0000_0000 - pos,
{
    if pos + 8 <= d.len() {
        if is_fmt(d, pos) {
            if pos + 24 <= d.len() {
                data_within(
                    d,
                    next_chunk(d, pos),
                    WavLayout {
                        channels: u16_le(d.subrange(pos + 10, pos + 12)) as u32,
                        sample_rate: u32_le(d.subrange(pos + 12, pos + 16)),
                        bits_per_sample: u16_le(d.subrange(pos + 22, pos + 24)) as u32,
                        ..l
                    },
                );
            }
        } else if !letters_at(d, pos, data_id()) {
            data_within(d, next_chunk(d, pos), l);
        }
    }
}

} // verus!
