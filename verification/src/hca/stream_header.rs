//! HCA encoder: the header of a stream.

use vstd::prelude::*;
use crate::bytes::{be16, be32, zeros};
use crate::hca::crc::{crc16, crc16_checksum};
use crate::hca::decoder::{ceil_div, HCA_VERSION_200};
use crate::hca::encoder::{EncoderModel, HcaEncoder, HcaEncoderError, ENCODER_DELAY};

verus! {

/// The three big-endian bytes of a value.
pub open spec fn be24(v: u32) -> Seq<u8> {
    seq![(v / 0x1_0000 % 0x100) as u8, (v / 0x100 % 0x100) as u8, (v % 0x100) as u8]
}

/// The low byte of a number.
pub open spec fn low8(v: u32) -> u8 {
    (v % 0x100) as u8
}

/// The low sixteen bits of a number.
pub open spec fn low16(v: u32) -> u16 {
    (v % 0x1_0000) as u16
}

pub open spec fn hca_id() -> Seq<u8> {
    seq![0x48u8, 0x43, 0x41, 0x00]
}

pub open spec fn fmt_id() -> Seq<u8> {
    seq![0x66u8, 0x6d, 0x74, 0x00]
}

pub open spec fn comp_id() -> Seq<u8> {
    seq![0x63u8, 0x6f, 0x6d, 0x70]
}

pub open spec fn loop_id() -> Seq<u8> {
    seq![0x6cu8, 0x6f, 0x6f, 0x70]
}

pub open spec fn ciph_id() -> Seq<u8> {
    seq![0x63u8, 0x69, 0x70, 0x68]
}

pub open spec fn pad_id() -> Seq<u8> {
    seq![0x70u8, 0x61, 0x64, 0x00]
}

/// The fixed part of a header.
pub open spec fn fixed_part(e: EncoderModel, frame_count: u32) -> Seq<u8> {
    hca_id() + be16(HCA_VERSION_200 as u16) + be16(0x60) + fmt_id() + seq![low8(e.config.channels)]
        + be24(e.config.sample_rate) + be32(frame_count) + be16(ENCODER_DELAY as u16) + be16(
        low16(e.padding),
    ) + comp_id() + be16(low16(e.frame_size)) + seq![
        1u8,
        15u8,
        1u8,
        low8(e.channel_config),
        low8(e.bands.total),
        low8(e.bands.base),
        low8(e.bands.stereo),
        low8(e.bands.per_group),
        0u8,
        0u8,
    ]
}

/// A loop in frames: the frame and the sample in it where the loop starts, the
/// last frame and the samples of it behind the end.
pub struct LoopFrames {
    pub start_frame: u32,
    pub end_frame: u32,
    pub start_delay: u32,
    pub end_padding: u32,
}

/// A loop from sample `start` to sample `end` of the input. An end on a frame
/// boundary belongs to the frame before.
pub open spec fn loop_frames(start: u32, end: u32) -> LoopFrames {
    let s = start + ENCODER_DELAY;
    let t = end + ENCODER_DELAY;
    if t % 1024 == 0 {
        LoopFrames {
            start_frame: (s / 1024) as u32,
            end_frame: if t / 1024 == 0 { 0 } else { (t / 1024 - 1) as u32 },
            start_delay: (s % 1024) as u32,
            end_padding: 0,
        }
    } else {
        LoopFrames {
            start_frame: (s / 1024) as u32,
            end_frame: (t / 1024) as u32,
            start_delay: (s % 1024) as u32,
            end_padding: (1024 - t % 1024) as u32,
        }
    }
}

/// Whether a stream loops.
pub open spec fn looped(e: EncoderModel) -> bool {
    e.config.loop_start is Some && e.config.loop_end is Some
}

/// The loop chunk, where the stream loops.
pub open spec fn loop_part(e: EncoderModel) -> Seq<u8> {
    if looped(e) {
        let l = loop_frames(e.config.loop_start->Some_0, e.config.loop_end->Some_0);
        loop_id() + be32(l.start_frame) + be32(l.end_frame) + be16(low16(l.start_delay)) + be16(
            low16(l.end_padding),
        )
    } else {
        Seq::empty()
    }
}

/// The cipher chunk and the name of the padding.
pub open spec fn cipher_part(e: EncoderModel) -> Seq<u8> {
    ciph_id() + be16(if e.config.encryption_key is Some { 56u16 } else { 0 }) + pad_id()
}

/// A header without its checksum, before masking.
pub open spec fn header_plain(e: EncoderModel, frame_count: u32) -> Seq<u8> {
    let parts = fixed_part(e, frame_count) + loop_part(e) + cipher_part(e);
    parts + zeros((94 - parts.len()) as nat)
}

/// Bytes with the top bit of `n` of them flipped from `at` on.
pub open spec fn flipped(h: Seq<u8>, at: int, n: int) -> Seq<u8> {
    Seq::new(h.len(), |i: int| if at <= i < at + n { h[i] ^ 0x80u8 } else { h[i] })
}

/// The name of the chunk at a place, without top bits.
pub open spec fn unmasked_id(h: Seq<u8>, at: int) -> Seq<u8> {
    Seq::new(4, |i: int| h[at + i] & 0x7fu8)
}

/// A header with its chunk names masked.
pub open spec fn masked(h: Seq<u8>) -> Seq<u8> {
    let h = flipped(flipped(flipped(h, 0, 3), 8, 3), 24, 4);
    let has_loop = unmasked_id(h, 40) == loop_id();
    let p: int = if has_loop { 56 } else { 40 };
    let h = if has_loop { flipped(h, 40, 4) } else { h };
    let has_cipher = unmasked_id(h, p) == ciph_id();
    let q = if has_cipher { p + 6 } else { p };
    let h = if has_cipher { flipped(h, p, 4) } else { h };
    if unmasked_id(h, q) == pad_id() { flipped(h, q, 3) } else { h }
}

/// A header without its checksum.
pub open spec fn header_body(e: EncoderModel, frame_count: u32) -> Seq<u8> {
    if e.config.encryption_key is Some {
        masked(header_plain(e, frame_count))
    } else {
        header_plain(e, frame_count)
    }
}

/// A whole header.
pub open spec fn stream_header(e: EncoderModel, frame_count: u32) -> Seq<u8> {
    header_body(e, frame_count) + be16(crc16(header_body(e, frame_count)))
}

fn xor_chunk_id(header: &mut Vec<u8>, offset: usize, count: usize)
    requires
        offset + count <= old(header)@.len(),
    ensures
        final(header)@ == flipped(old(header)@, offset as int, count as int),
{
    let ghost before = header@;
    assert(header@.len() == header.len());
    let mut i: usize = 0;
    while i < count
        invariant
            i <= count,
            offset + count <= header@.len(),
            header@.len() <= usize::MAX,
            header@.len() == before.len(),
            header@ =~= flipped(before, offset as int, i as int),
        decreases count - i,
    {
        let b: u8 = header[offset + i];
        header.set(offset + i, b ^ 0x80u8);
        i += 1;
    }
}

/// Whether the chunk at a place has a name, without top bits.
fn chunk_named(header: &Vec<u8>, offset: usize, a: u8, b: u8, c: u8, d: u8) -> (r: bool)
    requires
        offset + 4 <= header@.len(),
    ensures
        r == (unmasked_id(header@, offset as int) == seq![a, b, c, d]),
{
    assert(header@.len() == header.len());
    let r = header[offset] & 0x7fu8 == a && header[offset + 1] & 0x7fu8 == b && header[offset + 2]
        & 0x7fu8 == c && header[offset + 3] & 0x7fu8 == d;
    proof {
        let u = unmasked_id(header@, offset as int);
        let w = seq![a, b, c, d];
        assert(w[0] == a && w[1] == b && w[2] == c && w[3] == d);
        if r {
            assert(u =~= w);
        } else {
            assert(u[0] != w[0] || u[1] != w[1] || u[2] != w[2] || u[3] != w[3]);
        }
    }
    r
}

/// Masks the chunk names of a header.
pub fn mask_header(header: &mut Vec<u8>)
    requires
        old(header)@.len() >= 66,
    ensures
        final(header)@ == masked(old(header)@),
        final(header)@.len() == old(header)@.len(),
{
    xor_chunk_id(header, 0, 3);
    xor_chunk_id(header, 8, 3);
    xor_chunk_id(header, 24, 4);
    let mut position: usize = 40;
    if chunk_named(header, position, 0x6c, 0x6f, 0x6f, 0x70) {
        xor_chunk_id(header, position, 4);
        position += 16;
    }
    if chunk_named(header, position, 0x63, 0x69, 0x70, 0x68) {
        xor_chunk_id(header, position, 4);
        position += 6;
    }
    if chunk_named(header, position, 0x70, 0x61, 0x64, 0x00) {
        xor_chunk_id(header, position, 3);
    }
}

/// Appends four bytes.
fn put_id(out: &mut Vec<u8>, a: u8, b: u8, c: u8, d: u8)
    ensures
        final(out)@ == old(out)@ + seq![a, b, c, d],
{
    out.push(a);
    out.push(b);
    out.push(c);
    out.push(d);
    assert(out@ =~= old(out)@ + seq![a, b, c, d]);
}

/// The number of frames of some samples per channel.
pub open spec fn frames_needed(sample_frames: int) -> int {
    ceil_div(sample_frames + ENCODER_DELAY, 1024)
}

impl HcaEncoder {
    /// The number of frames that some interleaved samples take; notes the
    /// samples that the last frame holds too many.
    pub fn plan_frames(&mut self, sample_count: usize) -> (r: Result<u32, HcaEncoderError>)
        requires
            old(self).wf(),
            sample_count > 0 ==> frames_needed(
                ceil_div(sample_count as int, old(self).config.channels as int),
            ) * 1024 <= u32::MAX,
        ensures
            final(self).wf(),
            if sample_count == 0 {
                r == Err::<u32, HcaEncoderError>(HcaEncoderError::NoSamples) && *final(self) == *old(
                    self,
                )
            } else {
                let per_channel = ceil_div(sample_count as int, old(self).config.channels as int);
                let n = frames_needed(per_channel);
                &&& r == Ok::<u32, HcaEncoderError>(n as u32)
                &&& n <= u32::MAX
                &&& final(self)@ == (EncoderModel {
                    padding: (n * 1024 - ENCODER_DELAY - per_channel) as u32,
                    ..old(self)@
                })
            },
    {
        if sample_count == 0 {
            return Err(HcaEncoderError::NoSamples);
        }
        let channels: u128 = self.config.channels as u128;
        let wide: u128 = (sample_count as u128 + channels - 1) / channels;
        let per_channel: u64 = wide as u64;
        assert(wide <= u32::MAX);
        let n: u64 = (per_channel + 128 + 1023) / 1024;
        self.encoder_padding = (n * 1024 - 128 - per_channel) as u32;
        Ok(n as u32)
    }

    /// The header of a stream of some frames.
    pub fn write_header(&self, writer: &mut Vec<u8>, frame_count: u32)
        requires
            self.wf(),
            self.config.loop_start is Some ==> self.config.loop_start->Some_0 <= u32::MAX
                - ENCODER_DELAY,
            self.config.loop_end is Some ==> self.config.loop_end->Some_0 <= u32::MAX
                - ENCODER_DELAY,
        ensures
            final(writer)@ == old(writer)@ + stream_header(self@, frame_count),
            stream_header(self@, frame_count).len() == 0x60,
    {
        let ghost e = self@;
        let mut header: Vec<u8> = Vec::new();
        self.put_fixed_part(&mut header, frame_count);
        if let (Some(loop_start), Some(loop_end)) = (self.config.loop_start, self.config.loop_end) {
            put_loop_part(&mut header, loop_start, loop_end);
        }
        assert(header@ =~= fixed_part(e, frame_count) + loop_part(e));
        put_id(&mut header, 0x63, 0x69, 0x70, 0x68);
        crate::bytes::put_u16_be(
            &mut header,
            if self.config.encryption_key.is_some() { 56 } else { 0 },
        );
        put_id(&mut header, 0x70, 0x61, 0x64, 0x00);
        assert(header@ =~= fixed_part(e, frame_count) + loop_part(e) + cipher_part(e));
        let rest: usize = 94 - header.len();
        crate::bytes::put_zeros(&mut header, rest);
        if self.config.encryption_key.is_some() {
            mask_header(&mut header);
        }
        let crc: u16 = crc16_checksum(header.as_slice());
        crate::bytes::put_u16_be(&mut header, crc);
        crate::bytes::put_slice(writer, header.as_slice());
    }

    /// The fixed part of a header.
    fn put_fixed_part(&self, header: &mut Vec<u8>, frame_count: u32)
        requires
            self.wf(),
            old(header)@.len() == 0,
        ensures
            final(header)@ == fixed_part(self@, frame_count),
            final(header)@.len() == 40,
    {
        put_id(header, 0x48, 0x43, 0x41, 0x00);
        crate::bytes::put_u16_be(header, HCA_VERSION_200 as u16);
        crate::bytes::put_u16_be(header, 0x60);
        put_id(header, 0x66, 0x6d, 0x74, 0x00);
        header.push((self.config.channels % 0x100) as u8);
        header.push((self.config.sample_rate / 0x1_0000 % 0x100) as u8);
        header.push((self.config.sample_rate / 0x100 % 0x100) as u8);
        header.push((self.config.sample_rate % 0x100) as u8);
        crate::bytes::put_u32_be(header, frame_count);
        crate::bytes::put_u16_be(header, self.encoder_delay as u16);
        crate::bytes::put_u16_be(header, (self.encoder_padding % 0x1_0000) as u16);
        put_id(header, 0x63, 0x6f, 0x6d, 0x70);
        crate::bytes::put_u16_be(header, (self.frame_size % 0x1_0000) as u16);
        header.push(1);
        header.push(15);
        header.push(1);
        header.push((self.channel_config % 0x100) as u8);
        header.push((self.total_band_count % 0x100) as u8);
        header.push((self.base_band_count % 0x100) as u8);
        header.push((self.stereo_band_count % 0x100) as u8);
        header.push((self.bands_per_hfr_group % 0x100) as u8);
        header.push(0);
        header.push(0);
        assert(header@ =~= fixed_part(self@, frame_count));
    }
}

/// The loop chunk.
fn put_loop_part(header: &mut Vec<u8>, loop_start: u32, loop_end: u32)
    requires
        loop_start <= u32::MAX - ENCODER_DELAY,
        loop_end <= u32::MAX - ENCODER_DELAY,
    ensures
        ({
            let l = loop_frames(loop_start, loop_end);
            final(header)@ == old(header)@ + (loop_id() + be32(l.start_frame) + be32(l.end_frame)
                + be16(low16(l.start_delay)) + be16(low16(l.end_padding)))
        }),
{
    let start: u32 = loop_start + ENCODER_DELAY;
    let end: u32 = loop_end + ENCODER_DELAY;
    let mut end_frame: u32 = end / 1024;
    let mut end_padding: u32 = 1024 - end % 1024;
    if end_padding == 1024 {
        end_frame = if end_frame == 0 { 0 } else { end_frame - 1 };
        end_padding = 0;
    }
    put_id(header, 0x6c, 0x6f, 0x6f, 0x70);
    crate::bytes::put_u32_be(header, start / 1024);
    crate::bytes::put_u32_be(header, end_frame);
    crate::bytes::put_u16_be(header, (start % 1024) as u16);
    crate::bytes::put_u16_be(header, (end_padding % 0x1_0000) as u16);
    proof {
        let l = loop_frames(loop_start, loop_end);
        assert(header@ =~= old(header)@ + (loop_id() + be32(l.start_frame) + be32(l.end_frame)
            + be16(low16(l.start_delay)) + be16(low16(l.end_padding))));
    }
}

} // verus!
