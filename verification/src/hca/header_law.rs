//! What the decoder reads from a header that the encoder wrote.

use vstd::prelude::*;
use vstd::arithmetic::power2::lemma2_to64;
use crate::acb::utf::wrap32;
use crate::bytes::{be16, be16_round_trip, be32, be32_round_trip, u16_be, u32_be};
use crate::hca::bits::{word, word_byte, word_split};
use crate::hca::crc::{checksum_cancels, crc16};
use crate::hca::decoder::{
    all_chunks, ath_chunk, bands_accepted, base_header, cipher_chunk, comment_chunk, comp_chunk,
    comp_dec_chunk, fmt_chunk, frame_accepted, header_of, loop_chunk, num, rva_chunk, tag,
    vbr_chunk, with_one_track, HeaderModel, Stage, HCA_VERSION_200, ONE_BITS,
};
use crate::hca::encoder::{encoder_wf, EncoderModel, ENCODER_DELAY};
use crate::hca::stream_header::{
    be24, ciph_id, cipher_part, comp_id, fixed_part, flipped, fmt_id, hca_id, header_body,
    header_plain, loop_frames, loop_id, loop_part, looped, low16, low8, masked, pad_id,
    stream_header, unmasked_id,
};

verus! {

/// Bits that start with a byte and fill bytes are read as those bytes.
pub(crate) proof fn bytes_read(d: Seq<u8>, i: int)
    requires
        0 <= i < d.len(),
    ensures
        num(d, (8 * i) as nat, 8) == d[i],
        i + 2 <= d.len() ==> num(d, (8 * i) as nat, 16) == u16_be(d.subrange(i, i + 2)),
        i + 3 <= d.len() ==> num(d, (8 * i) as nat, 24) == d[i] * 0x1_0000 + d[i + 1] * 0x100 + d[i
            + 2],
        i + 4 <= d.len() ==> num(d, (8 * i) as nat, 32) == u32_be(d.subrange(i, i + 4)),
{
    reveal(num);
    lemma2_to64();
    word_byte(d, i as nat);
    let p = (8 * i) as nat;
    assert(p % 8 == 0);
    if i + 2 <= d.len() {
        word_byte(d, (i + 1) as nat);
        word_split(d, p, 8, 8);
        assert(word(d, p, 16) == d[i] * 0x100 + d[i + 1]);
    }
    if i + 3 <= d.len() {
        word_byte(d, (i + 2) as nat);
        word_split(d, p, 16, 8);
        assert(word(d, p, 24) == d[i] * 0x1_0000 + d[i + 1] * 0x100 + d[i + 2]);
    }
    if i + 4 <= d.len() {
        word_byte(d, (i + 3) as nat);
        word_split(d, p, 24, 8);
        assert(word(d, p, 32) == d[i] * 0x100_0000 + d[i + 1] * 0x1_0000 + d[i + 2] * 0x100 + d[i
            + 3]);
    }
}

/// The mask takes the top bit off each of four bytes.
proof fn mask_bytes(a: u32, b: u32, c: u32, d: u32)
    requires
        a < 256,
        b < 256,
        c < 256,
        d < 256,
    ensures
        ((a * 0x100_0000 + b * 0x1_0000 + c * 0x100 + d) as u32) & 0x7F7F_7F7F == (a & 0x7f)
            * 0x100_0000 + (b & 0x7f) * 0x1_0000 + (c & 0x7f) * 0x100 + (d & 0x7f),
{
    let n = (a * 0x100_0000 + b * 0x1_0000 + c * 0x100 + d) as u32;
    assert(n == (a << 24u32) | (b << 16u32) | (c << 8u32) | d) by {
        assert(a < 256 && b < 256 && c < 256 && d < 256 && n == ((((a * 0x100_0000u32) as u32 + (b
            * 0x1_0000u32) as u32) as u32 + (c * 0x100u32) as u32) as u32 + d) as u32 ==> n == (a
            << 24u32) | (b << 16u32) | (c << 8u32) | d) by (bit_vector);
    }
    let x = a & 0x7f;
    let y = b & 0x7f;
    let z = c & 0x7f;
    let w = d & 0x7f;
    assert(((a << 24u32) | (b << 16u32) | (c << 8u32) | d) & 0x7F7F_7F7F == ((((x * 0x100_0000u32)
        as u32 + (y * 0x1_0000u32) as u32) as u32 + (z * 0x100u32) as u32) as u32 + w) as u32 && x
        < 128 && y < 128 && z < 128 && w < 128) by (bit_vector)
        requires
            a < 256,
            b < 256,
            c < 256,
            d < 256,
            x == a & 0x7f,
            y == b & 0x7f,
            z == c & 0x7f,
            w == d & 0x7f,
    ;
}

/// The tag at a byte is its unmasked name as a number.
pub(crate) proof fn tag_named(d: Seq<u8>, i: int)
    requires
        0 <= i,
        i + 4 <= d.len(),
    ensures
        tag(d, (8 * i) as nat) == u32_be(unmasked_id(d, i)),
{
    bytes_read(d, i);
    let s = d.subrange(i, i + 4);
    let a = s[0];
    let b = s[1];
    let c = s[2];
    let e = s[3];
    mask_bytes(a as u32, b as u32, c as u32, e as u32);
    low_bits(a);
    low_bits(b);
    low_bits(c);
    low_bits(e);
}

proof fn low_bits(a: u8)
    ensures
        (a as u32) & 0x7f == a & 0x7fu8,
        (a ^ 0x80u8) & 0x7fu8 == a & 0x7fu8,
{
    assert((a as u32) & 0x7f == (a & 0x7fu8) as u32) by (bit_vector);
    assert((a ^ 0x80u8) & 0x7fu8 == a & 0x7fu8) by (bit_vector);
}

/// Where the cipher chunk of a header stands.
pub(crate) open spec fn cipher_at(e: EncoderModel) -> int {
    if looped(e) { 56 } else { 40 }
}

/// Whether bytes hold the start of a header and its format chunk.
#[verifier::opaque]
spec fn holds_first(d: Seq<u8>, e: EncoderModel, frame_count: u32) -> bool {
    &&& unmasked_id(d, 0) == hca_id()
    &&& d.subrange(4, 6) == be16(HCA_VERSION_200 as u16)
    &&& d.subrange(6, 8) == be16(0x60)
    &&& unmasked_id(d, 8) == fmt_id()
    &&& d[12] == low8(e.config.channels)
    &&& d[13] == be24(e.config.sample_rate)[0]
    &&& d[14] == be24(e.config.sample_rate)[1]
    &&& d[15] == be24(e.config.sample_rate)[2]
    &&& d.subrange(16, 20) == be32(frame_count)
    &&& d.subrange(20, 22) == be16(ENCODER_DELAY as u16)
    &&& d.subrange(22, 24) == be16(low16(e.padding))
}

/// Whether bytes hold the compression chunk of a header.
#[verifier::opaque]
spec fn holds_comp(d: Seq<u8>, e: EncoderModel) -> bool {
    &&& unmasked_id(d, 24) == comp_id()
    &&& d.subrange(28, 30) == be16(low16(e.frame_size))
    &&& d[30] == 1
    &&& d[31] == 15
    &&& d[32] == 1
    &&& d[33] == low8(e.channel_config)
    &&& d[34] == low8(e.bands.total)
    &&& d[35] == low8(e.bands.base)
    &&& d[36] == low8(e.bands.stereo)
    &&& d[37] == low8(e.bands.per_group)
    &&& d[38] == 0
    &&& d[39] == 0
}

/// Whether bytes hold the loop chunk of a header that has one.
#[verifier::opaque]
spec fn holds_loop(d: Seq<u8>, e: EncoderModel) -> bool {
    looped(e) ==> {
        let l = loop_frames(e.config.loop_start->Some_0, e.config.loop_end->Some_0);
        &&& unmasked_id(d, 40) == loop_id()
        &&& d.subrange(44, 48) == be32(l.start_frame)
        &&& d.subrange(48, 52) == be32(l.end_frame)
        &&& d.subrange(52, 54) == be16(low16(l.start_delay))
        &&& d.subrange(54, 56) == be16(low16(l.end_padding))
    }
}

/// Whether bytes hold the cipher chunk of a header and the padding behind it.
#[verifier::opaque]
spec fn holds_cipher(d: Seq<u8>, e: EncoderModel) -> bool {
    let p = cipher_at(e);
    &&& unmasked_id(d, p) == ciph_id()
    &&& d.subrange(p + 4, p + 6) == be16(if e.config.encryption_key is Some { 56u16 } else { 0 })
    &&& unmasked_id(d, p + 6) == pad_id()
}

/// Whether bytes hold the parts of a header, with names masked or not.
pub(crate) closed spec fn holds_header(d: Seq<u8>, e: EncoderModel, frame_count: u32) -> bool {
    &&& d.len() >= 94
    &&& holds_first(d, e, frame_count)
    &&& holds_comp(d, e)
    &&& holds_loop(d, e)
    &&& holds_cipher(d, e)
}

/// Letters have no top bit.
proof fn letters_plain(d: Seq<u8>, at: int, id: Seq<u8>)
    requires
        0 <= at,
        at + 4 <= d.len(),
        id.len() == 4,
        d.subrange(at, at + 4) == id,
        forall|i: int| 0 <= i < 4 ==> id[i] < 128,
    ensures
        unmasked_id(d, at) == id,
{
    let s = d.subrange(at, at + 4);
    assert forall|i: int| 0 <= i < 4 implies unmasked_id(d, at)[i] == id[i] by {
        let x = s[i];
        assert(d[at + i] == x);
        assert(x < 128 ==> x & 0x7fu8 == x) by (bit_vector);
    }
    assert(unmasked_id(d, at) =~= id);
}

/// A header before masking holds its parts.
proof fn plain_holds(e: EncoderModel, frame_count: u32)
    ensures
        holds_header(header_plain(e, frame_count), e, frame_count),
        header_plain(e, frame_count).len() == 94,
{
    reveal(holds_first);
    reveal(holds_comp);
    reveal(holds_loop);
    reveal(holds_cipher);
    let d = header_plain(e, frame_count);
    let p = cipher_at(e);
    let f = fixed_part(e, frame_count);
    let l = loop_part(e);
    let c = cipher_part(e);
    assert(f.len() == 40);
    assert(l.len() == p - 40);
    assert(c.len() == 10);
    assert(d.len() == 94);
    assert(d.subrange(0, 4) =~= hca_id());
    letters_plain(d, 0, hca_id());
    assert(d.subrange(4, 6) =~= be16(HCA_VERSION_200 as u16));
    assert(d.subrange(6, 8) =~= be16(0x60));
    assert(d.subrange(8, 12) =~= fmt_id());
    letters_plain(d, 8, fmt_id());
    assert(d.subrange(16, 20) =~= be32(frame_count));
    assert(d.subrange(20, 22) =~= be16(ENCODER_DELAY as u16));
    assert(d.subrange(22, 24) =~= be16(low16(e.padding)));
    assert(d.subrange(24, 28) =~= comp_id());
    letters_plain(d, 24, comp_id());
    assert(d.subrange(28, 30) =~= be16(low16(e.frame_size)));
    if looped(e) {
        let k = loop_frames(e.config.loop_start->Some_0, e.config.loop_end->Some_0);
        assert(d.subrange(40, 44) =~= loop_id());
        letters_plain(d, 40, loop_id());
        assert(d.subrange(44, 48) =~= be32(k.start_frame));
        assert(d.subrange(48, 52) =~= be32(k.end_frame));
        assert(d.subrange(52, 54) =~= be16(low16(k.start_delay)));
        assert(d.subrange(54, 56) =~= be16(low16(k.end_padding)));
    }
    assert(d.subrange(p, p + 4) =~= ciph_id());
    letters_plain(d, p, ciph_id());
    assert(d.subrange(p + 4, p + 6) =~= be16(
        if e.config.encryption_key is Some { 56u16 } else { 0 },
    ));
    assert(d.subrange(p + 6, p + 10) =~= pad_id());
    letters_plain(d, p + 6, pad_id());
}

/// Flipping top bits keeps names as they are without them.
proof fn flip_keeps_names(h: Seq<u8>, at: int, n: int, i: int)
    requires
        0 <= i,
        i + 4 <= h.len(),
    ensures
        unmasked_id(flipped(h, at, n), i) == unmasked_id(h, i),
{
    let g = flipped(h, at, n);
    assert forall|k: int| 0 <= k < 4 implies unmasked_id(g, i)[k] == unmasked_id(h, i)[k] by {
        low_bits(h[i + k]);
    }
    assert(unmasked_id(g, i) =~= unmasked_id(h, i));
}

/// What masking does to a header: it flips letters of names and nothing else.
proof fn masking(h: Seq<u8>, e: EncoderModel, frame_count: u32)
    requires
        holds_header(h, e, frame_count),
    ensures
        masked(h).len() == h.len(),
        forall|i: int| 0 <= i && i + 4 <= h.len() ==> #[trigger] unmasked_id(masked(h), i)
            == unmasked_id(h, i),
        forall|i: int|
            0 <= i < h.len() && !(0 <= i < 4) && !(8 <= i < 12) && !(24 <= i < 28) && !(40 <= i < 44
                && looped(e)) && !(cipher_at(e) <= i < cipher_at(e) + 4) && !(cipher_at(e) + 6 <= i
                < cipher_at(e) + 10) ==> #[trigger] masked(h)[i] == h[i],
{
    reveal(holds_first);
    reveal(holds_comp);
    reveal(holds_loop);
    reveal(holds_cipher);
    let p = cipher_at(e);
    let h1 = flipped(h, 0, 3);
    let h2 = flipped(h1, 8, 3);
    let h3 = flipped(h2, 24, 4);
    flip_keeps_names(h, 0, 3, 40);
    flip_keeps_names(h1, 8, 3, 40);
    flip_keeps_names(h2, 24, 4, 40);
    assert(ciph_id()[1] != loop_id()[1]);
    let has_loop = unmasked_id(h3, 40) == loop_id();
    assert(has_loop == looped(e));
    let h4 = if has_loop { flipped(h3, 40, 4) } else { h3 };
    flip_keeps_names(h, 0, 3, p);
    flip_keeps_names(h1, 8, 3, p);
    flip_keeps_names(h2, 24, 4, p);
    flip_keeps_names(h3, 40, 4, p);
    assert(unmasked_id(h4, p) == ciph_id());
    let h5 = flipped(h4, p, 4);
    flip_keeps_names(h, 0, 3, p + 6);
    flip_keeps_names(h1, 8, 3, p + 6);
    flip_keeps_names(h2, 24, 4, p + 6);
    flip_keeps_names(h3, 40, 4, p + 6);
    flip_keeps_names(h4, p, 4, p + 6);
    assert(unmasked_id(h5, p + 6) == pad_id());
    let h6 = flipped(h5, p + 6, 3);
    assert(masked(h) == h6);
    assert forall|i: int| 0 <= i && i + 4 <= h.len() implies #[trigger] unmasked_id(h6, i)
        == unmasked_id(h, i) by {
        flip_keeps_names(h, 0, 3, i);
        flip_keeps_names(h1, 8, 3, i);
        flip_keeps_names(h2, 24, 4, i);
        flip_keeps_names(h3, 40, 4, i);
        flip_keeps_names(h4, p, 4, i);
        flip_keeps_names(h5, p + 6, 3, i);
    }
}

/// A masked header holds its parts.
proof fn masked_holds(e: EncoderModel, frame_count: u32)
    ensures
        holds_header(masked(header_plain(e, frame_count)), e, frame_count),
        masked(header_plain(e, frame_count)).len() == 94,
{
    reveal(holds_first);
    reveal(holds_comp);
    reveal(holds_loop);
    reveal(holds_cipher);
    let h = header_plain(e, frame_count);
    let m = masked(h);
    let p = cipher_at(e);
    plain_holds(e, frame_count);
    masking(h, e, frame_count);
    assert(unmasked_id(m, 0) == unmasked_id(h, 0));
    assert(unmasked_id(m, 8) == unmasked_id(h, 8));
    assert(unmasked_id(m, 24) == unmasked_id(h, 24));
    assert(unmasked_id(m, 40) == unmasked_id(h, 40));
    assert(unmasked_id(m, p) == unmasked_id(h, p));
    assert(unmasked_id(m, p + 6) == unmasked_id(h, p + 6));
    assert(m.subrange(4, 6) =~= h.subrange(4, 6));
    assert(m.subrange(6, 8) =~= h.subrange(6, 8));
    assert(m.subrange(16, 20) =~= h.subrange(16, 20));
    assert(m.subrange(20, 22) =~= h.subrange(20, 22));
    assert(m.subrange(22, 24) =~= h.subrange(22, 24));
    assert(m.subrange(28, 30) =~= h.subrange(28, 30));
    if looped(e) {
        assert(m.subrange(44, 48) =~= h.subrange(44, 48));
        assert(m.subrange(48, 52) =~= h.subrange(48, 52));
        assert(m.subrange(52, 54) =~= h.subrange(52, 54));
        assert(m.subrange(54, 56) =~= h.subrange(54, 56));
    }
    assert(m.subrange(p + 4, p + 6) =~= h.subrange(p + 4, p + 6));
}

/// A whole header holds its parts and has the checksum zero.
pub(crate) proof fn stream_holds(e: EncoderModel, frame_count: u32)
    ensures
        holds_header(stream_header(e, frame_count), e, frame_count),
        unmasked_id(stream_header(e, frame_count), 0) == hca_id(),
        stream_header(e, frame_count).subrange(6, 8) == be16(0x60),
        stream_header(e, frame_count).len() == 0x60,
        crc16(stream_header(e, frame_count)) == 0,
{
    reveal(holds_first);
    reveal(holds_comp);
    reveal(holds_loop);
    reveal(holds_cipher);
    let b = header_body(e, frame_count);
    let d = stream_header(e, frame_count);
    let p = cipher_at(e);
    plain_holds(e, frame_count);
    masked_holds(e, frame_count);
    checksum_cancels(b);
    assert forall|i: int| 0 <= i && i + 4 <= 94 implies #[trigger] unmasked_id(d, i)
        == unmasked_id(b, i) by {
        assert(unmasked_id(d, i) =~= unmasked_id(b, i));
    }
    assert(unmasked_id(d, 0) == unmasked_id(b, 0));
    assert(unmasked_id(d, 8) == unmasked_id(b, 8));
    assert(unmasked_id(d, 24) == unmasked_id(b, 24));
    assert(unmasked_id(d, 40) == unmasked_id(b, 40));
    assert(unmasked_id(d, p) == unmasked_id(b, p));
    assert(unmasked_id(d, p + 6) == unmasked_id(b, p + 6));
    assert(d.subrange(4, 6) =~= b.subrange(4, 6));
    assert(d.subrange(6, 8) =~= b.subrange(6, 8));
    assert(d.subrange(16, 20) =~= b.subrange(16, 20));
    assert(d.subrange(20, 22) =~= b.subrange(20, 22));
    assert(d.subrange(22, 24) =~= b.subrange(22, 24));
    assert(d.subrange(28, 30) =~= b.subrange(28, 30));
    if looped(e) {
        assert(d.subrange(44, 48) =~= b.subrange(44, 48));
        assert(d.subrange(48, 52) =~= b.subrange(48, 52));
        assert(d.subrange(52, 54) =~= b.subrange(52, 54));
        assert(d.subrange(54, 56) =~= b.subrange(54, 56));
    }
    assert(d.subrange(p + 4, p + 6) =~= b.subrange(p + 4, p + 6));
}

/// Whether a loop lies within some frames.
pub open spec fn loop_within(e: EncoderModel, frame_count: u32) -> bool {
    looped(e) ==> {
        let l = loop_frames(e.config.loop_start->Some_0, e.config.loop_end->Some_0);
        &&& e.config.loop_start->Some_0 + ENCODER_DELAY <= u32::MAX
        &&& e.config.loop_end->Some_0 + ENCODER_DELAY <= u32::MAX
        &&& l.start_frame <= l.end_frame < frame_count
    }
}

/// Whether a header says what an encoder was set to.
pub open spec fn header_says(h: HeaderModel, e: EncoderModel, frame_count: u32) -> bool {
    &&& h.version == HCA_VERSION_200
    &&& h.header_size == 0x60
    &&& h.channels == e.config.channels
    &&& h.sample_rate == e.config.sample_rate
    &&& h.frame_count == frame_count
    &&& h.encoder_delay == ENCODER_DELAY
    &&& h.encoder_padding == e.padding
    &&& h.frame_size == e.frame_size
    &&& h.min_resolution == 1
    &&& h.max_resolution == 15
    &&& h.track_count == 1
    &&& h.channel_config == e.channel_config
    &&& h.total_band_count == e.bands.total
    &&& h.base_band_count == e.bands.base
    &&& h.stereo_band_count == e.bands.stereo
    &&& h.bands_per_hfr_group == e.bands.per_group
    &&& h.hfr_group_count == e.hfr_group_count
    &&& h.ms_stereo == 0
    &&& h.ath_type == 0
    &&& h.ciph_type == if e.config.encryption_key is Some { 56u32 } else { 0 }
    &&& h.loop_flag == looped(e)
    &&& looped(e) ==> {
        let l = loop_frames(e.config.loop_start->Some_0, e.config.loop_end->Some_0);
        &&& h.loop_start_frame == l.start_frame
        &&& h.loop_end_frame == l.end_frame
        &&& h.loop_start_delay == l.start_delay
        &&& h.loop_end_padding == l.end_padding
    }
    &&& h.rva_volume == ONE_BITS
    &&& h.comment_len == 0
}

/// The first chunks are read as they were written.
proof fn first_chunks_read(d: Seq<u8>, e: EncoderModel, frame_count: u32, before: HeaderModel)
    requires
        holds_header(d, e, frame_count),
        d.len() == 0x60,
        crc16(d) == 0,
        encoder_wf(e),
        frame_count > 0,
        e.padding <= 0xFFFF,
    ensures
        ({
            let s = base_header(d, Stage::start(before, 0));
            let t = fmt_chunk(d, s);
            &&& s.error is None
            &&& s.pos == 64
            &&& s.h == (HeaderModel { version: HCA_VERSION_200, header_size: 0x60, ..before })
            &&& t.error is None
            &&& t.pos == 192
            &&& t.h == (HeaderModel {
                channels: e.config.channels,
                sample_rate: e.config.sample_rate,
                frame_count,
                encoder_delay: ENCODER_DELAY,
                encoder_padding: e.padding,
                ..s.h
            })
        }),
{
    reveal(holds_first);
    reveal(base_header);
    reveal(fmt_chunk);
    tag_named(d, 0);
    bytes_read(d, 4);
    bytes_read(d, 6);
    be16_round_trip(HCA_VERSION_200 as u16);
    be16_round_trip(0x60);
    assert(d.subrange(0, 0x60) =~= d);
    tag_named(d, 8);
    bytes_read(d, 12);
    bytes_read(d, 13);
    bytes_read(d, 16);
    bytes_read(d, 20);
    bytes_read(d, 22);
    be32_round_trip(frame_count);
    be16_round_trip(ENCODER_DELAY as u16);
    be16_round_trip(low16(e.padding));
    assert(u32_be(hca_id()) == 0x4843_4100);
    assert(u32_be(fmt_id()) == 0x666D_7400);
}

/// The compression chunk is read as it was written.
proof fn comp_read(d: Seq<u8>, e: EncoderModel, frame_count: u32, s: Stage)
    requires
        holds_header(d, e, frame_count),
        encoder_wf(e),
        s.error is None,
        s.pos == 192,
    ensures
        ({
            let t = comp_dec_chunk(d, s);
            &&& t.error is None
            &&& t.pos == 320
            &&& t.h == (HeaderModel {
                frame_size: e.frame_size,
                min_resolution: 1,
                max_resolution: 15,
                track_count: 1,
                channel_config: e.channel_config,
                total_band_count: e.bands.total,
                base_band_count: e.bands.base,
                stereo_band_count: e.bands.stereo,
                bands_per_hfr_group: e.bands.per_group,
                ms_stereo: 0,
                reserved: 0,
                ..s.h
            })
        }),
{
    reveal(holds_comp);
    reveal(comp_dec_chunk);
    reveal(comp_chunk);
    tag_named(d, 24);
    assert(u32_be(comp_id()) == 0x636F_6D70);
    bytes_read(d, 28);
    be16_round_trip(low16(e.frame_size));
    bytes_read(d, 30);
    bytes_read(d, 31);
    bytes_read(d, 32);
    bytes_read(d, 33);
    bytes_read(d, 34);
    bytes_read(d, 35);
    bytes_read(d, 36);
    bytes_read(d, 37);
    bytes_read(d, 38);
    bytes_read(d, 39);
}

/// The chunks that the encoder never writes are found missing, and the loop is
/// read as it was written.
proof fn loop_read(d: Seq<u8>, e: EncoderModel, frame_count: u32, s: Stage)
    requires
        holds_header(d, e, frame_count),
        loop_within(e, frame_count),
        s.error is None,
        s.pos == 320,
        s.h.version == HCA_VERSION_200,
        s.h.frame_count == frame_count,
    ensures
        ({
            let t = vbr_chunk(d, s);
            let u = loop_chunk(d, ath_chunk(d, t));
            let h = HeaderModel {
                vbr_max_frame_size: 0,
                vbr_noise_level: 0,
                ath_type: 0,
                loop_flag: looped(e),
                ..s.h
            };
            &&& t.error is None
            &&& u.error is None
            &&& u.pos == 8 * cipher_at(e)
            &&& u.h == if looped(e) {
                let l = loop_frames(e.config.loop_start->Some_0, e.config.loop_end->Some_0);
                HeaderModel {
                    loop_start_frame: l.start_frame,
                    loop_end_frame: l.end_frame,
                    loop_start_delay: l.start_delay,
                    loop_end_padding: l.end_padding,
                    ..h
                }
            } else {
                h
            }
        }),
{
    reveal(holds_loop);
    reveal(holds_cipher);
    reveal(vbr_chunk);
    reveal(ath_chunk);
    reveal(loop_chunk);
    tag_named(d, 40);
    assert(u32_be(loop_id()) == 0x6C6F_6F70);
    assert(u32_be(ciph_id()) == 0x6369_7068);
    if looped(e) {
        let l = loop_frames(e.config.loop_start->Some_0, e.config.loop_end->Some_0);
        bytes_read(d, 44);
        bytes_read(d, 48);
        bytes_read(d, 52);
        bytes_read(d, 54);
        be32_round_trip(l.start_frame);
        be32_round_trip(l.end_frame);
        be16_round_trip(low16(l.start_delay));
        be16_round_trip(low16(l.end_padding));
    }
}

/// The cipher is read as it was written; no volume and no comment follow.
proof fn cipher_read(d: Seq<u8>, e: EncoderModel, frame_count: u32, s: Stage)
    requires
        holds_header(d, e, frame_count),
        s.error is None,
        s.pos == 8 * cipher_at(e),
    ensures
        ({
            let t = cipher_chunk(d, s);
            let u = comment_chunk(d, rva_chunk(d, t));
            &&& t.error is None
            &&& u.error is None
            &&& u.h == (HeaderModel {
                ciph_type: if e.config.encryption_key is Some { 56u32 } else { 0 },
                rva_volume: ONE_BITS,
                comment_len: 0,
                ..s.h
            })
        }),
{
    reveal(holds_cipher);
    reveal(cipher_chunk);
    reveal(rva_chunk);
    reveal(comment_chunk);
    let p = cipher_at(e);
    tag_named(d, p);
    bytes_read(d, p + 4);
    be16_round_trip(if e.config.encryption_key is Some { 56u16 } else { 0 });
    tag_named(d, p + 6);
    assert(u32_be(ciph_id()) == 0x6369_7068);
    assert(u32_be(pad_id()) == 0x7061_6400);
    assert((8 * (p + 6)) as nat == s.pos + 48);
    assert((8 * (p + 4)) as nat == s.pos + 32);
}

/// The decoder accepts every header that the encoder writes, masked or not,
/// and reads from it what the encoder was set to.
pub proof fn header_reads_back(e: EncoderModel, frame_count: u32, before: HeaderModel)
    requires
        encoder_wf(e),
        frame_count > 0,
        e.padding <= 0xFFFF,
        loop_within(e, frame_count),
    ensures
        header_of(stream_header(e, frame_count), before).error is None,
        header_says(header_of(stream_header(e, frame_count), before).h, e, frame_count),
{
    let d = stream_header(e, frame_count);
    stream_holds(e, frame_count);
    first_chunks_read(d, e, frame_count, before);
    let s = base_header(d, Stage::start(before, 0));
    let t = fmt_chunk(d, s);
    comp_read(d, e, frame_count, t);
    let u = comp_dec_chunk(d, t);
    loop_read(d, e, frame_count, u);
    let v = vbr_chunk(d, u);
    let w = loop_chunk(d, ath_chunk(d, v));
    cipher_read(d, e, frame_count, w);
    let x = comment_chunk(d, rva_chunk(d, cipher_chunk(d, w)));
    assert(all_chunks(d, s) == x);
    assert(frame_accepted(x.h));
    assert(bands_accepted(with_one_track(x.h)));
    let left = e.bands.total - e.bands.base - e.bands.stereo;
    assert(wrap32(left) == left);
}

} // verus!
