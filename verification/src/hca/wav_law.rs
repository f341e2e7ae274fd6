//! What a WAV file that was decoded says.

use vstd::prelude::*;
use crate::bytes::{le16, le32, le_round_trip, u16_of, u32_le};
use crate::hca::decoder::HeaderModel;
use crate::hca::encoder::{encoder_wf, EncoderModel};
use crate::hca::hca_file::{
    loop_sample_of, open_error, open_header, pcm_bytes, smpl_chunk, wav_header_of,
};
use crate::hca::header_law::loop_within;
use crate::hca::stream_header::looped;
use crate::hca::stream_law::{sized, stream_bytes, stream_opens};
use crate::hca::wav::{
    is_fmt, is_wav, next_chunk, raw_sample, raw_samples, sample_count, wav_from, wav_layout,
    WavLayout,
};

verus! {

/// The little-endian number of 32 bits at a place.
pub open spec fn word_at(d: Seq<u8>, at: int) -> int {
    d[at] + 256 * d[at + 1] + 65_536 * d[at + 2] + 16_777_216 * d[at + 3]
}

/// The little-endian number of 16 bits at a place.
pub open spec fn half_at(d: Seq<u8>, at: int) -> int {
    d[at] + 256 * d[at + 1]
}

proof fn word_stands(d: Seq<u8>, at: int, v: u32)
    requires
        0 <= at,
        at + 4 <= d.len(),
        d.subrange(at, at + 4) == le32(v),
    ensures
        word_at(d, at) == v,
{
    let s = d.subrange(at, at + 4);
    assert(s[0] == d[at] && s[1] == d[at + 1] && s[2] == d[at + 2] && s[3] == d[at + 3]);
    let w = v as int;
    assert(w == w % 256 + 256 * (w / 256 % 256) + 65_536 * (w / 65_536 % 256) + 16_777_216 * (w
        / 16_777_216));
}

proof fn half_stands(d: Seq<u8>, at: int, v: u16)
    requires
        0 <= at,
        at + 2 <= d.len(),
        d.subrange(at, at + 2) == le16(v),
    ensures
        half_at(d, at) == v,
{
    let s = d.subrange(at, at + 2);
    assert(s[0] == d[at] && s[1] == d[at + 1]);
}

/// The sampler chunk of a stream with a loop: its letters, the length of the
/// rest, the nanoseconds of a sample, middle C as its note, one forward loop
/// that is played for ever, and zeros besides. The loop starts and ends at the
/// samples that the header names, without the encoder's delay: the start by its
/// block and the samples before it there, the end by its block and the samples
/// behind it there.
pub proof fn sampler_chunk_tells(h: HeaderModel)
    requires
        h.loop_flag,
        h.sample_rate > 0,
    ensures
        ({
            let c = smpl_chunk(h);
            let start = h.loop_start_frame * 1024 + h.loop_start_delay;
            let end = h.loop_end_frame * 1024 + 1024 - h.loop_end_padding;
            &&& c.len() == 68
            &&& c[0] == 115 && c[1] == 109 && c[2] == 112 && c[3] == 108
            &&& word_at(c, 4) == c.len() - 8
            &&& word_at(c, 8) == 0 && word_at(c, 12) == 0
            &&& word_at(c, 16) == 1_000_000_000int / h.sample_rate as int
            &&& word_at(c, 20) == 60
            &&& word_at(c, 24) == 0 && word_at(c, 28) == 0 && word_at(c, 32) == 0
            &&& word_at(c, 36) == 1
            &&& word_at(c, 40) == 0 && word_at(c, 44) == 0 && word_at(c, 48) == 0
            &&& h.encoder_delay <= start <= u32::MAX ==> word_at(c, 52) + h.encoder_delay == start
            &&& start < h.encoder_delay ==> word_at(c, 52) == 0
            &&& h.loop_end_padding <= 1024 && h.encoder_delay <= end <= u32::MAX ==> word_at(c, 56)
                + h.encoder_delay == end
            &&& word_at(c, 60) == 0 && word_at(c, 64) == 0
        }),
{
    let c = smpl_chunk(h);
    let tail: int = if h.loop_end_padding <= 1024 { 1024 - h.loop_end_padding } else { 0 };
    let start = loop_sample_of(
        h.loop_start_frame as int,
        h.loop_start_delay as int,
        h.encoder_delay as int,
    );
    let end = loop_sample_of(h.loop_end_frame as int, tail, h.encoder_delay as int);
    let period = 1_000_000_000int / h.sample_rate as int;
    assert(0 <= period <= 1_000_000_000) by (nonlinear_arith)
        requires
            period == 1_000_000_000int / h.sample_rate as int,
            h.sample_rate > 0,
    ;
    assert(c.len() == 68);
    assert(c.subrange(4, 8) =~= le32(60));
    assert(c.subrange(8, 12) =~= le32(0));
    assert(c.subrange(12, 16) =~= le32(0));
    assert(c.subrange(16, 20) =~= le32(period as u32));
    assert(c.subrange(20, 24) =~= le32(60));
    assert(c.subrange(24, 28) =~= le32(0));
    assert(c.subrange(28, 32) =~= le32(0));
    assert(c.subrange(32, 36) =~= le32(0));
    assert(c.subrange(36, 40) =~= le32(1));
    assert(c.subrange(40, 44) =~= le32(0));
    assert(c.subrange(44, 48) =~= le32(0));
    assert(c.subrange(48, 52) =~= le32(0));
    assert(c.subrange(52, 56) =~= le32(start));
    assert(c.subrange(56, 60) =~= le32(end));
    assert(c.subrange(60, 64) =~= le32(0));
    assert(c.subrange(64, 68) =~= le32(0));
    word_stands(c, 4, 60);
    word_stands(c, 8, 0);
    word_stands(c, 12, 0);
    word_stands(c, 16, period as u32);
    word_stands(c, 20, 60);
    word_stands(c, 24, 0);
    word_stands(c, 28, 0);
    word_stands(c, 32, 0);
    word_stands(c, 36, 1);
    word_stands(c, 40, 0);
    word_stands(c, 44, 0);
    word_stands(c, 48, 0);
    word_stands(c, 52, start);
    word_stands(c, 56, end);
    word_stands(c, 60, 0);
    word_stands(c, 64, 0);
}

/// A stream without a loop has no sampler chunk.
pub proof fn no_loop_no_chunk(h: HeaderModel)
    requires
        !h.loop_flag,
    ensures
        smpl_chunk(h).len() == 0,
{
}

/// A stream that was encoded with a loop from one sample to another opens with
/// a loop whose sampler chunk names these two samples. One encoded without a
/// loop has no sampler chunk.
pub proof fn loop_comes_back(e: EncoderModel, frames: Seq<Seq<u8>>)
    requires
        encoder_wf(e),
        e.padding <= 0xFFFF,
        loop_within(e, frames.len() as u32),
        sized(frames, e.frame_size as int),
        0 < frames.len() <= u32::MAX,
    ensures
        ({
            let d = stream_bytes(e, frames);
            let c = smpl_chunk(open_header(d, 0));
            &&& open_error(d, 0) is None
            &&& match (e.config.loop_start, e.config.loop_end) {
                (Some(from), Some(to)) => word_at(c, 52) == from && word_at(c, 56) == to,
                _ => c.len() == 0,
            }
        }),
{
    let d = stream_bytes(e, frames);
    stream_opens(e, frames, 0);
    let h = open_header(d, 0);
    if looped(e) {
        sampler_chunk_tells(h);
        let s = e.config.loop_start->Some_0 + 128;
        let t = e.config.loop_end->Some_0 + 128;
        assert(s == s / 1024 * 1024 + s % 1024);
        assert(t == t / 1024 * 1024 + t % 1024);
    }
}

/// The header of a WAV file: 16-bit samples of so many channels at a rate, the
/// length of all that follows, and that of the samples.
pub proof fn wav_header_tells(channels: u32, rate: u32, pcm: int, smpl: int)
    requires
        channels <= 16,
        rate * channels * 2 <= u32::MAX,
        0 <= pcm,
        0 <= smpl,
        36 + pcm + smpl <= u32::MAX,
    ensures
        ({
            let c = wav_header_of(channels, rate, pcm, smpl);
            &&& c.len() == 44
            &&& c[0] == 82 && c[1] == 73 && c[2] == 70 && c[3] == 70
            &&& word_at(c, 4) == c.len() + pcm + smpl - 8
            &&& c[8] == 87 && c[9] == 65 && c[10] == 86 && c[11] == 69
            &&& c[12] == 102 && c[13] == 109 && c[14] == 116 && c[15] == 32
            &&& word_at(c, 16) == 16
            &&& half_at(c, 20) == 1
            &&& half_at(c, 22) == channels
            &&& word_at(c, 24) == rate
            &&& word_at(c, 28) == rate * half_at(c, 32)
            &&& half_at(c, 32) == channels * 2
            &&& half_at(c, 34) == 16
            &&& c[36] == 100 && c[37] == 97 && c[38] == 116 && c[39] == 97
            &&& word_at(c, 40) == pcm
        }),
{
    let c = wav_header_of(channels, rate, pcm, smpl);
    assert(rate * channels >= 0) by (nonlinear_arith)
        requires
            rate >= 0,
            channels >= 0,
    ;
    assert(c.len() == 44);
    assert(c.subrange(4, 8) =~= le32((36 + pcm + smpl) as u32));
    assert(c.subrange(16, 20) =~= le32(16));
    assert(c.subrange(20, 22) =~= le16(1));
    assert(c.subrange(22, 24) =~= le16(channels as u16));
    assert(c.subrange(24, 28) =~= le32(rate));
    assert(c.subrange(28, 32) =~= le32((rate * channels * 2) as u32));
    assert(c.subrange(32, 34) =~= le16((channels * 2) as u16));
    assert(c.subrange(34, 36) =~= le16(16));
    assert(c.subrange(40, 44) =~= le32(pcm as u32));
    word_stands(c, 4, (36 + pcm + smpl) as u32);
    word_stands(c, 16, 16);
    half_stands(c, 20, 1);
    half_stands(c, 22, channels as u16);
    word_stands(c, 24, rate);
    word_stands(c, 28, (rate * channels * 2) as u32);
    half_stands(c, 32, (channels * 2) as u16);
    half_stands(c, 34, 16);
    word_stands(c, 40, pcm as u32);
    assert(rate * channels * 2 == rate * (channels * 2)) by (nonlinear_arith);
}

/// Samples are written one after the other, two bytes each, the low byte first
/// and negative ones in two's complement.
pub proof fn samples_stand_in_order(s: Seq<i16>, i: int)
    requires
        0 <= i < s.len(),
    ensures
        pcm_bytes(s).len() == 2 * s.len(),
        half_at(pcm_bytes(s), 2 * i) == if s[i] >= 0 { s[i] as int } else { s[i] + 65_536 },
    decreases s.len(),
{
    let rest = s.drop_last();
    let b = pcm_bytes(s);
    if i < rest.len() {
        samples_stand_in_order(rest, i);
        assert(b[2 * i] == pcm_bytes(rest)[2 * i]);
        assert(b[2 * i + 1] == pcm_bytes(rest)[2 * i + 1]);
    } else {
        if rest.len() > 0 {
            samples_stand_in_order(rest, 0);
        }
        assert(b.subrange(2 * i, 2 * i + 2) =~= le16(u16_of(s.last())));
        half_stands(b, 2 * i, u16_of(s.last()));
    }
}

/// A WAV file that was decoded reads back: its channels, its rate, and its
/// samples, with a sampler chunk behind them or not.
pub proof fn wav_reads_back(channels: u32, rate: u32, s: Seq<i16>, smpl: Seq<u8>)
    requires
        channels <= 16,
        rate * channels * 2 <= u32::MAX,
        36 + 2 * s.len() + smpl.len() <= u32::MAX,
        2 * s.len() + 44 <= usize::MAX,
    ensures
        ({
            let pcm = 2 * s.len() as int;
            let d = wav_header_of(channels, rate, pcm, smpl.len() as int) + pcm_bytes(s) + smpl;
            let l = wav_layout(d)->Some_0;
            &&& is_wav(d)
            &&& wav_layout(d) is Some
            &&& l.channels == channels
            &&& l.sample_rate == rate
            &&& l.bits_per_sample == 16
            &&& l.data_len == pcm
            &&& raw_samples(d, l).len() == s.len()
            &&& forall|i: int| 0 <= i < s.len() ==> #[trigger] raw_samples(d, l)[i] == s[i]
        }),
{
    let pcm = 2 * s.len() as int;
    let head = wav_header_of(channels, rate, pcm, smpl.len() as int);
    header_stands(channels, rate, pcm, smpl.len() as int, pcm_bytes(s) + smpl);
    file_reads(head, channels, rate, s, smpl);
}

proof fn file_reads(head: Seq<u8>, channels: u32, rate: u32, s: Seq<i16>, smpl: Seq<u8>)
    requires
        channels <= 16,
        2 * s.len() <= u32::MAX,
        2 * s.len() + 44 <= usize::MAX,
        head.len() == 44,
        head_stands(head + (pcm_bytes(s) + smpl), channels, rate, 2 * s.len() as int),
    ensures
        ({
            let d = head + pcm_bytes(s) + smpl;
            let l = wav_layout(d)->Some_0;
            &&& is_wav(d)
            &&& wav_layout(d) is Some
            &&& l.channels == channels
            &&& l.sample_rate == rate
            &&& l.bits_per_sample == 16
            &&& l.data_len == 2 * s.len()
            &&& raw_samples(d, l).len() == s.len()
            &&& forall|i: int| 0 <= i < s.len() ==> #[trigger] raw_samples(d, l)[i] == s[i]
        }),
{
    let b = pcm_bytes(s);
    let d = head + b + smpl;
    if s.len() > 0 {
        samples_stand_in_order(s, 0);
    }
    assert(d =~= head + (b + smpl));
    header_scans(d, channels, rate, 2 * s.len() as int);
    let l = wav_layout(d)->Some_0;
    assert(d.subrange(44, (44 + b.len()) as int) =~= b);
    assert(b.len() == 2 * s.len());
    assert((l.bits_per_sample / 8) as int == 2);
    assert(l.data_len as int / 2 == s.len());
    assert((d.len() - l.data_start) / 2 >= s.len());
    assert(sample_count(d, l) == s.len());
    assert forall|i: int| 0 <= i < s.len() implies #[trigger] raw_samples(d, l)[i] == s[i] by {
        samples_stand_in_order(s, i);
        sample_read(d, b, s, i);
    }
}

proof fn sample_read(d: Seq<u8>, b: Seq<u8>, s: Seq<i16>, i: int)
    requires
        0 <= i < s.len(),
        b.len() == 2 * s.len(),
        d.len() >= 44 + b.len(),
        d.subrange(44, (44 + b.len()) as int) == b,
        half_at(b, 2 * i) == if s[i] >= 0 { s[i] as int } else { s[i] + 65_536 },
    ensures
        raw_sample(d, 44 + i * 2, 16) == s[i],
{
    let x = d.subrange(44 + i * 2, 44 + i * 2 + 2);
    let y = d.subrange(44, (44 + b.len()) as int);
    assert(x[0] == y[2 * i] && x[1] == y[2 * i + 1]);
}

/// Whether the head of a WAV file of 16-bit samples stands at the start of
/// some bytes.
#[verifier::opaque]
spec fn head_stands(d: Seq<u8>, channels: u32, rate: u32, pcm: int) -> bool {
    &&& d.len() >= 44
    &&& d.subrange(0, 4) == seq![0x52u8, 0x49, 0x46, 0x46]
    &&& d.subrange(8, 12) == seq![0x57u8, 0x41, 0x56, 0x45]
    &&& d.subrange(12, 16) == seq![0x66u8, 0x6d, 0x74, 0x20]
    &&& d.subrange(16, 20) == le32(16)
    &&& d.subrange(22, 24) == le16(channels as u16)
    &&& d.subrange(24, 28) == le32(rate)
    &&& d.subrange(34, 36) == le16(16)
    &&& d.subrange(36, 40) == seq![0x64u8, 0x61, 0x74, 0x61]
    &&& d.subrange(40, 44) == le32(pcm as u32)
}

proof fn header_stands(channels: u32, rate: u32, pcm: int, smpl: int, rest: Seq<u8>)
    requires
        0 <= pcm <= u32::MAX,
    ensures
        head_stands(wav_header_of(channels, rate, pcm, smpl) + rest, channels, rate, pcm),
        wav_header_of(channels, rate, pcm, smpl).len() == 44,
{
    reveal(head_stands);
    let d = wav_header_of(channels, rate, pcm, smpl) + rest;
    assert(d.subrange(0, 4) =~= seq![0x52u8, 0x49, 0x46, 0x46]);
    assert(d.subrange(8, 12) =~= seq![0x57u8, 0x41, 0x56, 0x45]);
    assert(d.subrange(12, 16) =~= seq![0x66u8, 0x6d, 0x74, 0x20]);
    assert(d.subrange(16, 20) =~= le32(16));
    assert(d.subrange(22, 24) =~= le16(channels as u16));
    assert(d.subrange(24, 28) =~= le32(rate));
    assert(d.subrange(34, 36) =~= le16(16));
    assert(d.subrange(36, 40) =~= seq![0x64u8, 0x61, 0x74, 0x61]);
    assert(d.subrange(40, 44) =~= le32(pcm as u32));
}

proof fn header_scans(d: Seq<u8>, channels: u32, rate: u32, pcm: int)
    requires
        head_stands(d, channels, rate, pcm),
        channels <= 16,
        0 <= pcm <= u32::MAX,
    ensures
        is_wav(d),
        wav_layout(d) == Some(
            WavLayout {
                channels,
                sample_rate: rate,
                bits_per_sample: 16,
                data_start: 44,
                data_len: pcm as usize,
            },
        ),
{
    let l = WavLayout {
        channels,
        sample_rate: rate,
        bits_per_sample: 16,
        data_start: 44,
        data_len: pcm as usize,
    };
    reveal(head_stands);
    le_round_trip(channels as u16, 16);
    le_round_trip(16, rate);
    le_round_trip(16, pcm as u32);
    assert(seq![0x66u8, 0x6d, 0x74, 0x20][0] != seq![0x64u8, 0x61, 0x74, 0x61][0]);
    assert(!is_fmt(d, 36));
    assert(wav_from(d, 36, WavLayout { data_start: 0, data_len: 0, ..l }) == Some(l));
    assert(is_fmt(d, 12));
    assert(next_chunk(d, 12) == 36);
}

/// A stored sample of 24 bits is the signed number with those bits, low byte
/// first; one of 32 bits is handed on as its bits.
pub proof fn wide_samples_tell(d: Seq<u8>, at: int)
    requires
        0 <= at,
        at + 4 <= d.len(),
    ensures
        ({
            let v = raw_sample(d, at, 24);
            &&& -8_388_608 <= v < 8_388_608
            &&& (v - (d[at] + 256 * d[at + 1] + 65_536 * d[at + 2])) % 16_777_216 == 0
        }),
        raw_sample(d, at, 32) == word_at(d, at),
{
    let s = d.subrange(at, at + 4);
    assert(s[0] == d[at] && s[1] == d[at + 1] && s[2] == d[at + 2] && s[3] == d[at + 3]);
    assert(u32_le(s) == word_at(d, at));
}

} // verus!
