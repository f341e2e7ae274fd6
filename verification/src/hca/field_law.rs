//! Which bytes of a header say what.

use vstd::prelude::*;
use vstd::arithmetic::power2::lemma2_to64;
use crate::hca::bits::{word, word_bound, word_byte, word_split};
use crate::hca::decoder::{
    ath_chunk, base_header, cipher_chunk, comment_chunk, comp_chunk, comp_dec_chunk, dec_chunk,
    fmt_chunk, loop_chunk, num, rva_chunk, tag, vbr_chunk, Stage,
};
use crate::hca::header_law::{bytes_read, tag_named};
use crate::hca::stream_header::unmasked_id;

verus! {

/// The number of two bytes, the high one first.
pub open spec fn two(d: Seq<u8>, i: int) -> int {
    256 * d[i] + d[i + 1]
}

/// The number of three bytes, the high one first.
pub open spec fn three(d: Seq<u8>, i: int) -> int {
    65_536 * d[i] + two(d, i + 1)
}

/// The number of four bytes, the high one first.
pub open spec fn four(d: Seq<u8>, i: int) -> int {
    16_777_216 * d[i] + three(d, i + 1)
}

/// Whether four letters stand at a place, with their top bits set or not.
pub open spec fn named(d: Seq<u8>, i: int, a: u8, b: u8, c: u8, e: u8) -> bool {
    &&& d[i] % 128 == a
    &&& d[i + 1] % 128 == b
    &&& d[i + 2] % 128 == c
    &&& d[i + 3] % 128 == e
}

proof fn top_bit_dropped(a: u8)
    ensures
        a & 0x7f == a % 128,
{
    assert(a & 0x7f == a % 128) by (bit_vector);
}

/// The letters at a place tell its chunk.
proof fn letters_tell(d: Seq<u8>, i: int, a: u8, b: u8, c: u8, e: u8)
    requires
        0 <= i,
        i + 4 <= d.len(),
        a < 128,
        b < 128,
        c < 128,
        e < 128,
    ensures
        named(d, i, a, b, c, e) <==> tag(d, (8 * i) as nat) == 16_777_216 * a + 65_536 * b + 256 * c
            + e,
{
    tag_named(d, i);
    let u = unmasked_id(d, i);
    top_bit_dropped(d[i]);
    top_bit_dropped(d[i + 1]);
    top_bit_dropped(d[i + 2]);
    top_bit_dropped(d[i + 3]);
    assert(u[0] == d[i] & 0x7f);
    assert(u[1] == d[i + 1] & 0x7f);
    assert(u[2] == d[i + 2] & 0x7f);
    assert(u[3] == d[i + 3] & 0x7f);
}

proof fn numbers_stand(d: Seq<u8>, i: int)
    requires
        0 <= i < d.len(),
    ensures
        num(d, (8 * i) as nat, 8) == d[i],
        i + 2 <= d.len() ==> num(d, (8 * i) as nat, 16) == two(d, i),
        i + 3 <= d.len() ==> num(d, (8 * i) as nat, 24) == three(d, i),
        i + 4 <= d.len() ==> num(d, (8 * i) as nat, 32) == four(d, i),
{
    bytes_read(d, i);
    if i + 2 <= d.len() {
        let s = d.subrange(i, i + 2);
        assert(s[0] == d[i] && s[1] == d[i + 1]);
    }
    if i + 4 <= d.len() {
        let s = d.subrange(i, i + 4);
        assert(s[0] == d[i] && s[1] == d[i + 1] && s[2] == d[i + 2] && s[3] == d[i + 3]);
    }
}

proof fn halves_stand(d: Seq<u8>, i: int)
    requires
        0 <= i < d.len(),
    ensures
        num(d, (8 * i) as nat, 4) == d[i] / 16,
        num(d, (8 * i + 4) as nat, 4) == d[i] % 16,
{
    reveal(num);
    lemma2_to64();
    let p = (8 * i) as nat;
    word_byte(d, i as nat);
    word_split(d, p, 4, 4);
    word_bound(d, p, 4);
    word_bound(d, p + 4, 4);
    assert(word(d, p, 8) == d[i]);
    assert((p + 4) % 8 == 4);
}

/// The start of a header: the letters `HCA`, the version and the size.
pub proof fn start_tells(d: Seq<u8>, s: Stage, i: int)
    requires
        0 <= i,
        i + 8 <= d.len(),
        s.pos == 8 * i,
    ensures
        ({
            let t = base_header(d, s);
            &&& !named(d, i, 72, 67, 65, 0) ==> t.error is Some
            &&& named(d, i, 72, 67, 65, 0) ==> {
                &&& t.h.version == two(d, i + 4)
                &&& t.h.header_size == two(d, i + 6)
                &&& t.error is None ==> t.pos == 8 * (i + 8)
            }
        }),
{
    reveal(base_header);
    letters_tell(d, i, 72, 67, 65, 0);
    numbers_stand(d, i + 4);
    numbers_stand(d, i + 6);
}

/// The format chunk: channels, rate, blocks, and the samples to drop at the
/// front and at the end.
pub proof fn format_tells(d: Seq<u8>, s: Stage, i: int)
    requires
        0 <= i,
        i + 16 <= d.len(),
        s.pos == 8 * i,
        s.error is None,
    ensures
        ({
            let t = fmt_chunk(d, s);
            &&& !named(d, i, 102, 109, 116, 0) ==> t.error is Some
            &&& named(d, i, 102, 109, 116, 0) ==> {
                &&& t.pos == 8 * (i + 16)
                &&& t.h.channels == d[i + 4]
                &&& t.h.sample_rate == three(d, i + 5)
                &&& t.h.frame_count == four(d, i + 8)
                &&& t.h.encoder_delay == two(d, i + 12)
                &&& t.h.encoder_padding == two(d, i + 14)
            }
        }),
{
    reveal(fmt_chunk);
    letters_tell(d, i, 102, 109, 116, 0);
    numbers_stand(d, i + 4);
    numbers_stand(d, i + 5);
    numbers_stand(d, i + 8);
    numbers_stand(d, i + 12);
    numbers_stand(d, i + 14);
}

/// The compression chunk: block size, limits of the resolution, tracks and
/// their configuration, and how the bands are shared out.
pub proof fn compression_tells(d: Seq<u8>, s: Stage, i: int)
    requires
        0 <= i,
        i + 16 <= d.len(),
        s.pos == 8 * i,
        s.error is None,
        named(d, i, 99, 111, 109, 112),
    ensures
        ({
            let t = comp_dec_chunk(d, s);
            &&& t.error is None
            &&& t.pos == 8 * (i + 16)
            &&& t.h.frame_size == two(d, i + 4)
            &&& t.h.min_resolution == d[i + 6]
            &&& t.h.max_resolution == d[i + 7]
            &&& t.h.track_count == d[i + 8]
            &&& t.h.channel_config == d[i + 9]
            &&& t.h.total_band_count == d[i + 10]
            &&& t.h.base_band_count == d[i + 11]
            &&& t.h.stereo_band_count == d[i + 12]
            &&& t.h.bands_per_hfr_group == d[i + 13]
            &&& t.h.ms_stereo == d[i + 14]
        }),
{
    reveal(comp_dec_chunk);
    reveal(comp_chunk);
    letters_tell(d, i, 99, 111, 109, 112);
    numbers_stand(d, i + 4);
    numbers_stand(d, i + 6);
    numbers_stand(d, i + 7);
    numbers_stand(d, i + 8);
    numbers_stand(d, i + 9);
    numbers_stand(d, i + 10);
    numbers_stand(d, i + 11);
    numbers_stand(d, i + 12);
    numbers_stand(d, i + 13);
    numbers_stand(d, i + 14);
    numbers_stand(d, i + 15);
}

/// The older form of the compression chunk counts the last bands, not the
/// bands. Without stereo all of them are base bands; else those above the base
/// bands are stereo bands. None are left for groups.
pub proof fn older_compression_tells(d: Seq<u8>, s: Stage, i: int)
    requires
        0 <= i,
        i + 12 <= d.len(),
        s.pos == 8 * i,
        s.error is None,
        named(d, i, 100, 101, 99, 0),
    ensures
        ({
            let t = comp_dec_chunk(d, s);
            &&& t.error is None
            &&& t.pos == 8 * (i + 12)
            &&& t.h.frame_size == two(d, i + 4)
            &&& t.h.min_resolution == d[i + 6]
            &&& t.h.max_resolution == d[i + 7]
            &&& t.h.total_band_count == d[i + 8] + 1
            &&& d[i + 11] == 0 ==> t.h.base_band_count == d[i + 8] + 1 && t.h.stereo_band_count == 0
            &&& d[i + 11] != 0 ==> t.h.base_band_count == d[i + 9] + 1
            &&& d[i + 11] != 0 && d[i + 9] <= d[i + 8] ==> t.h.base_band_count
                + t.h.stereo_band_count == t.h.total_band_count
            &&& t.h.track_count == d[i + 10] / 16
            &&& t.h.channel_config == d[i + 10] % 16
            &&& t.h.bands_per_hfr_group == 0
        }),
{
    reveal(comp_dec_chunk);
    reveal(dec_chunk);
    letters_tell(d, i, 99, 111, 109, 112);
    letters_tell(d, i, 100, 101, 99, 0);
    numbers_stand(d, i + 4);
    numbers_stand(d, i + 6);
    numbers_stand(d, i + 7);
    numbers_stand(d, i + 8);
    numbers_stand(d, i + 9);
    halves_stand(d, i + 10);
    numbers_stand(d, i + 11);
}

/// The chunk of variable bit rate is taken where the block size is zero and its
/// greatest block lies between 9 and 511 bytes.
pub proof fn variable_rate_tells(d: Seq<u8>, s: Stage, i: int)
    requires
        0 <= i,
        i + 8 <= d.len(),
        s.pos == 8 * i,
        s.error is None,
    ensures
        ({
            let t = vbr_chunk(d, s);
            &&& !named(d, i, 118, 98, 114, 0) ==> t.error is None && t.pos == s.pos
                && t.h.vbr_max_frame_size == 0 && t.h.vbr_noise_level == 0
            &&& named(d, i, 118, 98, 114, 0) ==> {
                &&& t.pos == 8 * (i + 8)
                &&& t.h.vbr_max_frame_size == two(d, i + 4)
                &&& t.h.vbr_noise_level == two(d, i + 6)
                &&& t.error is None <==> s.h.frame_size == 0 && 9 <= two(d, i + 4) <= 511
            }
        }),
{
    reveal(vbr_chunk);
    letters_tell(d, i, 118, 98, 114, 0);
    numbers_stand(d, i + 4);
    numbers_stand(d, i + 6);
}

/// The hearing threshold is the one that its chunk names; without a chunk,
/// files before version 2.0 have the first one and later ones none.
pub proof fn threshold_tells(d: Seq<u8>, s: Stage, i: int)
    requires
        0 <= i,
        i + 6 <= d.len(),
        s.pos == 8 * i,
        s.error is None,
    ensures
        ({
            let t = ath_chunk(d, s);
            &&& t.error is None
            &&& named(d, i, 97, 116, 104, 0) ==> t.h.ath_type == two(d, i + 4) && t.pos == 8 * (i
                + 6)
            &&& !named(d, i, 97, 116, 104, 0) ==> t.pos == s.pos && t.h.ath_type
                == if s.h.version < 0x200 { 1int } else { 0 }
        }),
{
    reveal(ath_chunk);
    letters_tell(d, i, 97, 116, 104, 0);
    numbers_stand(d, i + 4);
}

/// The loop chunk names the first and the last block of the loop, and the
/// samples before and behind it there. The loop lies within the stream.
pub proof fn loop_tells(d: Seq<u8>, s: Stage, i: int)
    requires
        0 <= i,
        i + 16 <= d.len(),
        s.pos == 8 * i,
        s.error is None,
    ensures
        ({
            let t = loop_chunk(d, s);
            &&& t.h.loop_flag == named(d, i, 108, 111, 111, 112)
            &&& !t.h.loop_flag ==> t.error is None && t.pos == s.pos
            &&& t.h.loop_flag ==> {
                &&& t.pos == 8 * (i + 16)
                &&& t.h.loop_start_frame == four(d, i + 4)
                &&& t.h.loop_end_frame == four(d, i + 8)
                &&& t.h.loop_start_delay == two(d, i + 12)
                &&& t.h.loop_end_padding == two(d, i + 14)
                &&& t.error is None <==> four(d, i + 4) <= four(d, i + 8) < s.h.frame_count
            }
        }),
{
    reveal(loop_chunk);
    letters_tell(d, i, 108, 111, 111, 112);
    numbers_stand(d, i + 4);
    numbers_stand(d, i + 8);
    numbers_stand(d, i + 12);
    numbers_stand(d, i + 14);
}

/// The cipher chunk names one of three ciphers; without it there is none.
pub proof fn cipher_tells(d: Seq<u8>, s: Stage, i: int)
    requires
        0 <= i,
        i + 6 <= d.len(),
        s.pos == 8 * i,
        s.error is None,
    ensures
        ({
            let t = cipher_chunk(d, s);
            &&& !named(d, i, 99, 105, 112, 104) ==> t.error is None && t.pos == s.pos
                && t.h.ciph_type == 0
            &&& named(d, i, 99, 105, 112, 104) ==> {
                &&& t.h.ciph_type == two(d, i + 4)
                &&& t.pos == 8 * (i + 6)
                &&& t.error is None <==> two(d, i + 4) == 0 || two(d, i + 4) == 1 || two(d, i + 4)
                    == 56
            }
        }),
{
    reveal(cipher_chunk);
    letters_tell(d, i, 99, 105, 112, 104);
    numbers_stand(d, i + 4);
}

/// The volume chunk holds the bits of a number; without it the volume is one.
pub proof fn volume_tells(d: Seq<u8>, s: Stage, i: int)
    requires
        0 <= i,
        i + 8 <= d.len(),
        s.pos == 8 * i,
        s.error is None,
    ensures
        ({
            let t = rva_chunk(d, s);
            &&& t.error is None
            &&& named(d, i, 114, 118, 97, 0) ==> t.h.rva_volume == four(d, i + 4) && t.pos == 8 * (i
                + 8)
            &&& !named(d, i, 114, 118, 97, 0) ==> t.h.rva_volume == 0x3f80_0000 && t.pos == s.pos
        }),
{
    reveal(rva_chunk);
    letters_tell(d, i, 114, 118, 97, 0);
    numbers_stand(d, i + 4);
}

/// The comment chunk holds a length and so many bytes.
pub proof fn comment_tells(d: Seq<u8>, s: Stage, i: int, k: int)
    requires
        0 <= i,
        i + 5 <= d.len(),
        s.pos == 8 * i,
        s.error is None,
    ensures
        ({
            let t = comment_chunk(d, s);
            &&& t.error is None
            &&& !named(d, i, 99, 111, 109, 109) ==> t.h.comment_len == 0
            &&& named(d, i, 99, 111, 109, 109) ==> t.h.comment_len == d[i + 4]
            &&& named(d, i, 99, 111, 109, 109) && 0 <= k < d[i + 4] && i + 5 + k < d.len()
                ==> t.h.comment[k] == d[i + 5 + k]
        }),
{
    reveal(comment_chunk);
    letters_tell(d, i, 99, 111, 109, 109);
    numbers_stand(d, i + 4);
    if 0 <= k < d[i + 4] && i + 5 + k < d.len() {
        numbers_stand(d, i + 5 + k);
        assert((s.pos + 40 + 8 * k) as nat == (8 * (i + 5 + k)) as nat);
    }
}

} // verus!
