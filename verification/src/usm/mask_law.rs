//! What the masks are made of, and which bytes they touch.

use vstd::arithmetic::div_mod::{
    lemma_add_mod_noop_right, lemma_mod_mod, lemma_sub_mod_noop_right,
};
use vstd::prelude::*;
use crate::usm::mask::{
    audio_mask_bytes, audio_masked, head_mask, mask_bytes, minus8, plus8, tail_mask_bytes,
    video_masked,
};

verus! {

/// Byte `i` of a key, counted from its low end.
pub open spec fn key_byte(key: u64, i: nat) -> int {
    if i == 0 {
        key as int % 256
    } else if i == 1 {
        key as int / 256 % 256
    } else if i == 2 {
        key as int / 65_536 % 256
    } else if i == 3 {
        key as int / 16_777_216 % 256
    } else if i == 4 {
        key as int / 4_294_967_296 % 256
    } else if i == 5 {
        key as int / 1_099_511_627_776 % 256
    } else {
        key as int / 281_474_976_710_656 % 256
    }
}

/// A number modulo 256.
#[verifier::opaque]
pub open spec fn low(v: int) -> u8 {
    (v % 256) as u8
}

proof fn complement(a: u8)
    ensures
        a ^ 0xFF == 255 - a,
{
    assert(a ^ 0xFFu8 == 255 - a) by (bit_vector);
}

/// Each lane of the mask of a key, from the bytes of the key alone.
pub proof fn lanes_of_a_key(key: u64)
    ensures
        ({
            let a = key_byte(key, 0);
            let b = key_byte(key, 1);
            let c = key_byte(key, 2);
            let d = low(key_byte(key, 3) - 52) ^ 16;
            let e = key_byte(key, 4) % 16;
            let f = (key_byte(key, 5) as u8) ^ 19;
            let g = low(key_byte(key, 6) + 97) ^ 243;
            let m = mask_bytes(key);
            &&& m.len() == 32
            &&& m[0] == a
            &&& m[1] == b
            &&& m[2] == c
            &&& m[3] == low(key_byte(key, 3) - 52)
            &&& m[4] == low(e - 7)
            &&& m[5] == f
            &&& m[6] == low(key_byte(key, 6) + 97)
            &&& m[7] == 255 - a
            &&& m[8] == low(b + c)
            &&& m[9] == low(a + b + 1)
            &&& m[10] == 255 - c
            &&& m[11] == 255 - b
            &&& m[12] == a
            &&& m[13] == low(b + c + 52 - key_byte(key, 3))
            &&& m[14] == low(key_byte(key, 3) - 53 - b - c)
            &&& m[15] == low(b - c)
            &&& m[16] == low(2 * c)
            &&& m[17] == low(2 * c) ^ ((255 - a) as u8)
            &&& m[18] == low(c - b - 1)
            &&& m[19] == d
            &&& m[20] == low(e - 57)
            &&& m[21] == low(f - 19)
            &&& m[22] == g
            &&& m[23] == low(d + c - b)
            &&& m[24] == low(f - 20 - a)
            &&& m[25] == low(33 - d)
            &&& m[26] == low(e - 57) ^ low(d + c - b)
            &&& m[27] == low(2 * g)
            &&& m[28] == low(d + c - b + 68)
            &&& m[29] == low(key_byte(key, 3) + e - 59)
            &&& m[30] == low(f - g)
            &&& m[31] == low(key_byte(key, 3) + e - 59) ^ d
        }),
{
    let x = key as int / 4_294_967_296;
    lanes_by_lanes(key);
    lemma_mod_mod(x, 16, 16);
    lanes_first(mask_bytes(key), key_byte(key, 3), key_byte(key, 4) % 16, key_byte(key, 6));
    lanes_middle(mask_bytes(key), key_byte(key, 3));
    lanes_last(mask_bytes(key), key_byte(key, 3), key_byte(key, 4) % 16);
}

proof fn lanes_first(m: Seq<u8>, p: int, e: int, q: int)
    requires
        0 <= p < 256,
        0 <= e < 16,
        0 <= q < 256,
        m[3] == minus8(p as u8, 52),
        m[4] == plus8(e as u8, 249),
        m[6] == plus8(q as u8, 97),
        m[20] == minus8(m[4], 50),
        m[21] == plus8(m[5], 237),
    ensures
        m[3] == low(p - 52),
        m[4] == low(e - 7),
        m[6] == low(q + 97),
        m[20] == low(e - 57),
        m[21] == low(m[5] - 19),
{
    as_low(p as u8, 52);
    as_low(e as u8, 249);
    as_low(q as u8, 97);
    low_turns(e - 7);
    as_low(m[4], 50);
    low_moves(e - 7, -50);
    as_low(m[5], 237);
    low_turns(m[5] - 19);
}

proof fn low_turns(x: int)
    ensures
        low(x + 256) == low(x),
{
    reveal(low);
}

proof fn lanes_middle(m: Seq<u8>, p: int)
    requires
        m[3] == low(p - 52),
        m[7] == m[0] ^ 0xFF,
        m[8] == plus8(m[2], m[1]),
        m[9] == minus8(m[1], m[7]),
        m[10] == m[2] ^ 0xFF,
        m[11] == m[1] ^ 0xFF,
        m[12] == plus8(m[11], m[9]),
        m[13] == minus8(m[8], m[3]),
        m[14] == m[13] ^ 0xFF,
        m[15] == minus8(m[10], m[11]),
        m[16] == minus8(m[8], m[15]),
        m[18] == m[15] ^ 0xFF,
    ensures
        m[7] == 255 - m[0],
        m[8] == low(m[1] + m[2]),
        m[9] == low(m[0] + m[1] + 1),
        m[10] == 255 - m[2],
        m[11] == 255 - m[1],
        m[12] == m[0],
        m[13] == low(m[1] + m[2] + 52 - p),
        m[14] == low(p - 53 - m[1] - m[2]),
        m[15] == low(m[1] - m[2]),
        m[16] == low(2 * m[2]),
        m[18] == low(m[2] - m[1] - 1),
{
    let a = m[0] as int;
    let b = m[1] as int;
    let c = m[2] as int;
    complement(m[0]);
    complement(m[1]);
    complement(m[2]);
    complement(m[13]);
    complement(m[15]);
    as_low(m[2], m[1]);
    as_low(m[1], m[7]);
    low_turns(a + b - 255);
    as_low(m[11], m[9]);
    low_moves(a + b + 1, 255 - b);
    low_of_byte(m[0]);
    as_low(m[8], m[3]);
    low_moves(p - 52, low(b + c) as int);
    low_moves(b + c, 52 - p);
    low_moves(b + c + 52 - p, 0);
    as_low(m[10], m[11]);
    as_low(m[8], m[15]);
    low_moves(b - c, low(b + c) as int);
    low_moves(b + c, c - b);
    low_moves(b - c, 0);
}

proof fn lanes_last(m: Seq<u8>, p: int, e: int)
    requires
        m[3] == low(p - 52),
        m[4] == low(e - 7),
        m[7] == 255 - m[0],
        m[15] == low(m[1] - m[2]),
        m[21] == low(m[5] - 19),
        m[23] == minus8(m[19], m[15]),
        m[24] == plus8(m[21], m[7]),
        m[25] == minus8(33, m[19]),
        m[27] == plus8(m[22], m[22]),
        m[28] == plus8(m[23], 68),
        m[29] == plus8(m[3], m[4]),
        m[30] == minus8(m[5], m[22]),
    ensures
        m[23] == low(m[19] + m[2] - m[1]),
        m[24] == low(m[5] - 20 - m[0]),
        m[25] == low(33 - m[19]),
        m[27] == low(2 * m[22]),
        m[28] == low(m[19] + m[2] - m[1] + 68),
        m[29] == low(p + e - 59),
        m[30] == low(m[5] - m[22]),
{
    let d = m[19] as int;
    let f = m[5] as int;
    as_low(m[19], m[15]);
    low_moves(m[1] - m[2], d);
    as_low(m[21], m[7]);
    low_moves(f - 19, 255 - m[0]);
    low_turns(f - 20 - m[0]);
    as_low(33, m[19]);
    as_low(m[22], m[22]);
    as_low(m[23], 68);
    low_moves(d + m[2] - m[1], 68);
    as_low(m[3], m[4]);
    low_moves(p - 52, m[4] as int);
    low_moves(e - 7, p - 52);
    as_low(m[5], m[22]);
}

proof fn low_of_byte(a: u8)
    ensures
        low(a as int) == a,
        low(a as int + 256) == a,
{
    reveal(low);
}

proof fn low_moves(x: int, y: int)
    ensures
        low(low(x) + y) == low(x + y),
        low(y - low(x)) == low(y - x),
        255 - low(x) == low(-1 - x),
{
    reveal(low);
    lemma_add_mod_noop_right(y, x, 256);
    lemma_sub_mod_noop_right(y, x, 256);
    lemma_sub_mod_noop_right(-1, x, 256);
}

proof fn as_low(a: u8, b: u8)
    ensures
        plus8(a, b) == low(a + b),
        minus8(a, b) == low(a - b),
{
    reveal(low);
    reveal(plus8);
    reveal(minus8);
}

/// What each lane is made of, by the lanes before it.
proof fn lanes_by_lanes(key: u64)
    ensures
        ({
            let m = mask_bytes(key);
            &&& m.len() == 32
            &&& m[0] == key_byte(key, 0)
            &&& m[1] == key_byte(key, 1)
            &&& m[2] == key_byte(key, 2)
            &&& m[3] == minus8(key_byte(key, 3) as u8, 52)
            &&& m[4] == plus8((key as int / 4_294_967_296 % 16) as u8, 249)
            &&& m[5] == (key_byte(key, 5) as u8) ^ 19
            &&& m[6] == plus8(key_byte(key, 6) as u8, 97)
            &&& m[7] == m[0] ^ 0xFF
            &&& m[8] == plus8(m[2], m[1])
            &&& m[9] == minus8(m[1], m[7])
            &&& m[10] == m[2] ^ 0xFF
            &&& m[11] == m[1] ^ 0xFF
            &&& m[12] == plus8(m[11], m[9])
            &&& m[13] == minus8(m[8], m[3])
            &&& m[14] == m[13] ^ 0xFF
            &&& m[15] == minus8(m[10], m[11])
            &&& m[16] == minus8(m[8], m[15])
            &&& m[17] == m[16] ^ m[7]
            &&& m[18] == m[15] ^ 0xFF
            &&& m[19] == m[3] ^ 16
            &&& m[20] == minus8(m[4], 50)
            &&& m[21] == plus8(m[5], 237)
            &&& m[22] == m[6] ^ 243
            &&& m[23] == minus8(m[19], m[15])
            &&& m[24] == plus8(m[21], m[7])
            &&& m[25] == minus8(33, m[19])
            &&& m[26] == m[20] ^ m[23]
            &&& m[27] == plus8(m[22], m[22])
            &&& m[28] == plus8(m[23], 68)
            &&& m[29] == plus8(m[3], m[4])
            &&& m[30] == minus8(m[5], m[22])
            &&& m[31] == m[29] ^ m[19]
        }),
{
    reveal(mask_bytes);
}

/// The mask of the tail is the complement of that of the head. The mask of an
/// audio payload is the same in even lanes, and spells `URUC` over the odd ones.
pub proof fn other_masks_follow(key: u64, l: int)
    requires
        0 <= l < 32,
    ensures
        tail_mask_bytes(key).len() == 32,
        audio_mask_bytes(key).len() == 32,
        tail_mask_bytes(key)[l] == 255 - mask_bytes(key)[l],
        l % 2 == 0 ==> audio_mask_bytes(key)[l] == 255 - mask_bytes(key)[l],
        l % 8 == 1 || l % 8 == 5 ==> audio_mask_bytes(key)[l] == 85,
        l % 8 == 3 ==> audio_mask_bytes(key)[l] == 82,
        l % 8 == 7 ==> audio_mask_bytes(key)[l] == 67,
{
    complement(mask_bytes(key)[l]);
}

/// What a masked video payload shows of its plain one. The first 64 bytes are
/// open, and all bytes of a payload below 576. From 320 on each byte is
/// combined with its lane of the tail's mask and, from the second row of lanes
/// on, with the plain byte one row before. The 256 bytes before that are
/// combined with their lane of the head's mask and all plain bytes of the lane
/// from 320 on, up to the one 256 bytes behind.
pub proof fn masked_video_shows(plain: Seq<u8>, head: Seq<u8>, tail: Seq<u8>, k: int)
    requires
        0 <= k < plain.len(),
    ensures
        ({
            let masked = video_masked(plain, head, tail);
            let l = k % 32;
            &&& masked.len() == plain.len()
            &&& plain.len() < 576 || k < 64 ==> masked[k] == plain[k]
            &&& plain.len() >= 576 && 64 <= k < 96 ==> masked[k] == plain[k] ^ (head[l] ^ plain[k
                + 256])
            &&& plain.len() >= 576 && 96 <= k < 320 ==> masked[k] ^ plain[k] == (masked[k - 32]
                ^ plain[k - 32]) ^ plain[k + 256]
            &&& plain.len() >= 576 && 320 <= k < 352 ==> masked[k] == plain[k] ^ tail[l]
            &&& plain.len() >= 576 && 352 <= k ==> masked[k] == plain[k] ^ (plain[k - 32] ^ tail[l])
        }),
{
    let masked = video_masked(plain, head, tail);
    if plain.len() >= 576 && 96 <= k < 320 {
        let x = plain[k];
        let y = plain[k - 32];
        let u = head_mask(plain, head, k - 0x40);
        let v = head_mask(plain, head, k - 0x40 - 32);
        assert((x ^ u) ^ x == u) by (bit_vector);
        assert((y ^ v) ^ y == v) by (bit_vector);
    }
}

/// A masked audio payload is open up to byte 320; each byte from there on is
/// combined with its lane.
pub proof fn masked_audio_shows(plain: Seq<u8>, mask: Seq<u8>, k: int)
    requires
        0 <= k < plain.len(),
    ensures
        audio_masked(plain, mask).len() == plain.len(),
        k < 320 ==> audio_masked(plain, mask)[k] == plain[k],
        k >= 320 ==> audio_masked(plain, mask)[k] == plain[k] ^ mask[k % 32],
{
}

} // verus!
