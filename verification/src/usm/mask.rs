//! The byte masks over video and audio payloads.

use vstd::prelude::*;

verus! {

/// The width of a mask; byte `i` of a payload meets lane `i % MASK_LEN`.
pub const MASK_LEN: usize = 0x20;

/// The masks of the head and of the tail of a video payload.
pub type VideoMask = ([u8; MASK_LEN], [u8; MASK_LEN]);

/// The mask of an audio payload.
pub type AudioMask = [u8; MASK_LEN];

/// A sum of bytes, modulo 256.
#[verifier::opaque]
pub open spec fn plus8(a: u8, b: u8) -> u8 {
    ((a + b) % 0x100) as u8
}

/// A difference of bytes, modulo 256.
#[verifier::opaque]
pub open spec fn minus8(a: u8, b: u8) -> u8 {
    ((a - b) % 0x100) as u8
}

fn plus(a: u8, b: u8) -> (r: u8)
    ensures
        r == plus8(a, b),
{
    reveal(plus8);
    ((a as u16 + b as u16) % 0x100) as u8
}

fn minus(a: u8, b: u8) -> (r: u8)
    ensures
        r == minus8(a, b),
{
    reveal(minus8);
    ((a as u16 + 0x100 - b as u16) % 0x100) as u8
}

/// The 32 bytes that a key spreads to.
#[verifier::opaque]
pub open spec fn mask_bytes(key: u64) -> Seq<u8> {
    let t00 = (key % 0x100) as u8;
    let t01 = (key / 0x100 % 0x100) as u8;
    let t02 = (key / 0x1_0000 % 0x100) as u8;
    let t03 = minus8((key / 0x100_0000 % 0x100) as u8, 0x34);
    let t04 = plus8((key / 0x1_0000_0000 % 0x10) as u8, 0xF9);
    let t05 = (key / 0x100_0000_0000 % 0x100) as u8 ^ 0x13;
    let t06 = plus8((key / 0x1_0000_0000_0000 % 0x100) as u8, 0x61);
    let t07 = t00 ^ 0xFF;
    let t08 = plus8(t02, t01);
    let t09 = minus8(t01, t07);
    let t0a = t02 ^ 0xFF;
    let t0b = t01 ^ 0xFF;
    let t0c = plus8(t0b, t09);
    let t0d = minus8(t08, t03);
    let t0e = t0d ^ 0xFF;
    let t0f = minus8(t0a, t0b);
    let t10 = minus8(t08, t0f);
    let t11 = t10 ^ t07;
    let t12 = t0f ^ 0xFF;
    let t13 = t03 ^ 0x10;
    let t14 = minus8(t04, 0x32);
    let t15 = plus8(t05, 0xED);
    let t16 = t06 ^ 0xF3;
    let t17 = minus8(t13, t0f);
    let t18 = plus8(t15, t07);
    let t19 = minus8(0x21, t13);
    let t1a = t14 ^ t17;
    let t1b = plus8(t16, t16);
    let t1c = plus8(t17, 0x44);
    let t1d = plus8(t03, t04);
    let t1e = minus8(t05, t16);
    let t1f = t1d ^ t13;
    seq![
        t00, t01, t02, t03, t04, t05, t06, t07, t08, t09, t0a, t0b, t0c, t0d, t0e, t0f,
        t10, t11, t12, t13, t14, t15, t16, t17, t18, t19, t1a, t1b, t1c, t1d, t1e, t1f,
    ]
}

/// The bytes `URUC`.
pub open spec fn audio_letters() -> Seq<u8> {
    seq![0x55u8, 0x52, 0x55, 0x43]
}

/// The mask of the tail of a video payload.
pub open spec fn tail_mask_bytes(key: u64) -> Seq<u8> {
    Seq::new(32, |i: int| mask_bytes(key)[i] ^ 0xFF)
}

/// The mask of an audio payload: letters in the odd lanes.
pub open spec fn audio_mask_bytes(key: u64) -> Seq<u8> {
    Seq::new(
        32,
        |i: int|
            if i % 2 == 1 { audio_letters()[i / 2 % 4] } else { mask_bytes(key)[i] ^ 0xFF },
    )
}

fn spread(key: u64) -> (t: [u8; MASK_LEN])
    ensures
        t@ == mask_bytes(key),
        t@.len() == 32,
{
    reveal(mask_bytes);
    let t00: u8 = (key % 0x100) as u8;
    let t01: u8 = (key / 0x100 % 0x100) as u8;
    let t02: u8 = (key / 0x1_0000 % 0x100) as u8;
    let t03: u8 = minus((key / 0x100_0000 % 0x100) as u8, 0x34);
    let t04: u8 = plus((key / 0x1_0000_0000 % 0x10) as u8, 0xF9);
    let t05: u8 = (key / 0x100_0000_0000 % 0x100) as u8 ^ 0x13;
    let t06: u8 = plus((key / 0x1_0000_0000_0000 % 0x100) as u8, 0x61);
    let t07: u8 = t00 ^ 0xFF;
    let t08: u8 = plus(t02, t01);
    let t09: u8 = minus(t01, t07);
    let t0a: u8 = t02 ^ 0xFF;
    let t0b: u8 = t01 ^ 0xFF;
    let t0c: u8 = plus(t0b, t09);
    let t0d: u8 = minus(t08, t03);
    let t0e: u8 = t0d ^ 0xFF;
    let t0f: u8 = minus(t0a, t0b);
    let t10: u8 = minus(t08, t0f);
    let t11: u8 = t10 ^ t07;
    let t12: u8 = t0f ^ 0xFF;
    let t13: u8 = t03 ^ 0x10;
    let t14: u8 = minus(t04, 0x32);
    let t15: u8 = plus(t05, 0xED);
    let t16: u8 = t06 ^ 0xF3;
    let t17: u8 = minus(t13, t0f);
    let t18: u8 = plus(t15, t07);
    let t19: u8 = minus(0x21, t13);
    let t1a: u8 = t14 ^ t17;
    let t1b: u8 = plus(t16, t16);
    let t1c: u8 = plus(t17, 0x44);
    let t1d: u8 = plus(t03, t04);
    let t1e: u8 = minus(t05, t16);
    let t1f: u8 = t1d ^ t13;
    let t = [
        t00, t01, t02, t03, t04, t05, t06, t07, t08, t09, t0a, t0b, t0c, t0d, t0e, t0f,
        t10, t11, t12, t13, t14, t15, t16, t17, t18, t19, t1a, t1b, t1c, t1d, t1e, t1f,
    ];
    assert(t@ =~= mask_bytes(key));
    t
}

/// Generate the masks of a key.
pub fn get_mask(key: u64) -> (r: (VideoMask, AudioMask))
    ensures
        r.0.0@ == mask_bytes(key),
        r.0.1@ == tail_mask_bytes(key),
        r.1@ == audio_mask_bytes(key),
{
    let t = spread(key);
    let letters: [u8; 4] = [0x55, 0x52, 0x55, 0x43];
    let mut head: [u8; MASK_LEN] = [0; MASK_LEN];
    let mut tail: [u8; MASK_LEN] = [0; MASK_LEN];
    let mut audio: [u8; MASK_LEN] = [0; MASK_LEN];
    let mut i: usize = 0;
    while i < MASK_LEN
        invariant
            i <= MASK_LEN,
            t@ == mask_bytes(key),
            letters@ =~= audio_letters(),
            forall|j: int| 0 <= j < i ==> head@[j] == mask_bytes(key)[j],
            forall|j: int| 0 <= j < i ==> tail@[j] == tail_mask_bytes(key)[j],
            forall|j: int| 0 <= j < i ==> audio@[j] == audio_mask_bytes(key)[j],
        decreases MASK_LEN - i,
    {
        head[i] = t[i];
        tail[i] = t[i] ^ 0xFF;
        audio[i] = if i % 2 == 1 { letters[i / 2 % 4] } else { t[i] ^ 0xFF };
        i += 1;
    }
    assert(head@ =~= mask_bytes(key));
    assert(tail@ =~= tail_mask_bytes(key));
    assert(audio@ =~= audio_mask_bytes(key));
    ((head, tail), audio)
}

/// The mask byte at `i` of the head: the lane's byte and every byte of that
/// lane so far of the 256 bytes behind the head.
pub open spec fn head_mask(plain: Seq<u8>, mask: Seq<u8>, i: int) -> u8
    decreases i,
{
    if i < 32 {
        mask[i] ^ plain[0x140 + i]
    } else {
        head_mask(plain, mask, i - 32) ^ plain[0x140 + i]
    }
}

/// The mask byte at `i` behind the head: the lane's byte and the plain byte
/// one lane width before it.
pub open spec fn tail_mask(plain: Seq<u8>, mask: Seq<u8>, i: int) -> u8 {
    if i < 32 {
        mask[i]
    } else {
        plain[0x140 + i - 32] ^ mask[i % 32]
    }
}

/// A video payload under a mask. Payloads below `0x240` bytes have none.
pub open spec fn video_masked(plain: Seq<u8>, head: Seq<u8>, tail: Seq<u8>) -> Seq<u8> {
    if plain.len() < 0x240 {
        plain
    } else {
        Seq::new(
            plain.len(),
            |k: int|
                if k < 0x40 {
                    plain[k]
                } else if k < 0x140 {
                    plain[k] ^ head_mask(plain, head, k - 0x40)
                } else {
                    plain[k] ^ tail_mask(plain, tail, k - 0x140)
                },
        )
    }
}

/// The plain byte at `i` behind the head of a masked payload.
pub open spec fn tail_plain(masked: Seq<u8>, mask: Seq<u8>, i: int) -> u8
    decreases i,
{
    if i < 32 {
        masked[0x140 + i] ^ mask[i]
    } else {
        masked[0x140 + i] ^ (tail_plain(masked, mask, i - 32) ^ mask[i % 32])
    }
}

/// A masked payload with the part behind the head made plain.
pub open spec fn tail_unmasked(masked: Seq<u8>, tail: Seq<u8>) -> Seq<u8> {
    Seq::new(
        masked.len(),
        |k: int| if k < 0x140 { masked[k] } else { tail_plain(masked, tail, k - 0x140) },
    )
}

/// The plain payload of a masked one.
pub open spec fn video_unmasked(masked: Seq<u8>, head: Seq<u8>, tail: Seq<u8>) -> Seq<u8> {
    if masked.len() < 0x240 {
        masked
    } else {
        let t = tail_unmasked(masked, tail);
        Seq::new(
            masked.len(),
            |k: int|
                if 0x40 <= k < 0x140 { masked[k] ^ head_mask(t, head, k - 0x40) } else { t[k] },
        )
    }
}

/// An audio payload under a mask, or without it: each byte from `0x140` on is
/// combined with its lane.
pub open spec fn audio_masked(data: Seq<u8>, mask: Seq<u8>) -> Seq<u8> {
    Seq::new(
        data.len(),
        |k: int| if k < 0x140 { data[k] } else { data[k] ^ mask[(k - 0x140) % 32] },
    )
}

/// Takes the mask off a video payload in place.
pub fn mask_video(buf: &mut [u8], vmask: &VideoMask)
    ensures
        final(buf)@ == video_unmasked(old(buf)@, vmask.0@, vmask.1@),
{
    let len: usize = buf.len();
    if len < 0x240 {
        return;
    }
    let ghost masked = buf@;
    let ghost head = vmask.0@;
    let ghost tail = vmask.1@;
    let ghost t = tail_unmasked(masked, tail);
    let mut mask: [u8; MASK_LEN] = vmask.1;
    let mut i: usize = 0;
    while i < len - 0x140
        invariant
            len == buf@.len() == masked.len(),
            len >= 0x240,
            i <= len - 0x140,
            tail == vmask.1@,
            t == tail_unmasked(masked, tail),
            forall|k: int| 0 <= k < 0x140 + i ==> buf@[k] == #[trigger] t[k],
            forall|k: int| 0x140 + i <= k < len ==> buf@[k] == masked[k],
            forall|l: int| 0 <= l < 32 ==> mask@[l] == lane_state(masked, tail, i as int, l),
        decreases len - i,
    {
        let l: usize = i % MASK_LEN;
        let ghost held = mask@;
        let v: u8 = buf[0x140 + i] ^ mask[l];
        buf[0x140 + i] = v;
        mask[l] = v ^ vmask.1[l];
        proof {
            lane_step(masked, tail, i as int);
            assert(v == tail_plain(masked, tail, i as int));
            assert forall|m: int| 0 <= m < 32 implies mask@[m] == lane_state(
                masked,
                tail,
                i + 1,
                m,
            ) by {
                assert(held[m] == lane_state(masked, tail, i as int, m));
            }
        }
        i += 1;
    }
    assert(buf@ =~= t);
    let mut mask: [u8; MASK_LEN] = vmask.0;
    let mut i: usize = 0;
    while i < 0x100
        invariant
            len == buf@.len() == masked.len(),
            len >= 0x240,
            i <= 0x100,
            head == vmask.0@,
            t == tail_unmasked(masked, tail),
            forall|k: int| 0 <= k < 0x40 || 0x40 + i <= k < len ==> buf@[k] == #[trigger] t[k],
            forall|k: int|
                0x40 <= k < 0x40 + i ==> #[trigger] buf@[k] == masked[k] ^ head_mask(
                    t,
                    head,
                    k - 0x40,
                ),
            forall|l: int| 0 <= l < 32 ==> mask@[l] == head_state(t, head, i as int, l),
        decreases 0x100 - i,
    {
        let l: usize = i % MASK_LEN;
        let ghost held = mask@;
        let m: u8 = mask[l] ^ buf[0x140 + i];
        mask[l] = m;
        buf[0x40 + i] = buf[0x40 + i] ^ m;
        proof {
            head_step(t, head, i as int);
            assert(t[0x40 + i] == masked[0x40 + i]);
            assert forall|m: int| 0 <= m < 32 implies mask@[m] == head_state(t, head, i + 1, m) by {
                assert(held[m] == head_state(t, head, i as int, m));
            }
        }
        i += 1;
    }
    assert(buf@ =~= video_unmasked(masked, head, tail));
}

/// The last index of lane `l` below `i`.
spec fn last_in_lane(i: int, l: int) -> int {
    l + (i - 1 - l) / 32 * 32
}

proof fn lane_moves(i: int)
    requires
        0 <= i,
    ensures
        last_in_lane(i + 1, i % 32) == i,
        i >= 32 ==> last_in_lane(i, i % 32) == i - 32,
        i < 32 ==> i % 32 == i,
{
}

proof fn lane_rests(i: int, m: int)
    requires
        0 <= m < 32,
        m < i,
        m != i % 32,
    ensures
        last_in_lane(i + 1, m) == last_in_lane(i, m),
{
}

/// The mask of lane `l` after `i` bytes behind the head have been made plain.
spec fn lane_state(masked: Seq<u8>, mask: Seq<u8>, i: int, l: int) -> u8 {
    if i <= l {
        mask[l]
    } else {
        tail_plain(masked, mask, last_in_lane(i, l)) ^ mask[l]
    }
}

proof fn lane_step(masked: Seq<u8>, mask: Seq<u8>, i: int)
    requires
        0 <= i,
    ensures
        masked[0x140 + i] ^ lane_state(masked, mask, i, i % 32) == tail_plain(masked, mask, i),
        lane_state(masked, mask, i + 1, i % 32) == tail_plain(masked, mask, i) ^ mask[i % 32],
        forall|m: int|
            0 <= m < 32 && m != i % 32 ==> lane_state(masked, mask, i + 1, m) == lane_state(
                masked,
                mask,
                i,
                m,
            ),
{
    let l = i % 32;
    lane_moves(i);
    assert forall|m: int| 0 <= m < 32 && m != l implies lane_state(masked, mask, i + 1, m)
        == lane_state(masked, mask, i, m) by {
        if i > m {
            lane_rests(i, m);
        }
    }
}

/// The mask of lane `l` after `i` bytes of the head.
spec fn head_state(plain: Seq<u8>, mask: Seq<u8>, i: int, l: int) -> u8 {
    if i <= l {
        mask[l]
    } else {
        head_mask(plain, mask, last_in_lane(i, l))
    }
}

proof fn head_step(plain: Seq<u8>, mask: Seq<u8>, i: int)
    requires
        0 <= i,
    ensures
        head_state(plain, mask, i, i % 32) ^ plain[0x140 + i] == head_mask(plain, mask, i),
        head_state(plain, mask, i + 1, i % 32) == head_mask(plain, mask, i),
        forall|m: int|
            0 <= m < 32 && m != i % 32 ==> head_state(plain, mask, i + 1, m) == head_state(
                plain,
                mask,
                i,
                m,
            ),
{
    let l = i % 32;
    lane_moves(i);
    assert forall|m: int| 0 <= m < 32 && m != l implies head_state(plain, mask, i + 1, m)
        == head_state(plain, mask, i, m) by {
        if i > m {
            lane_rests(i, m);
        }
    }
}

/// Puts the audio mask on a payload in place, or takes it off.
pub fn mask_audio(buf: &mut [u8], amask: &AudioMask)
    ensures
        final(buf)@ == audio_masked(old(buf)@, amask@),
{
    let len: usize = buf.len();
    let ghost data = buf@;
    let mut k: usize = 0x140;
    while k < len
        invariant
            len == buf@.len() == data.len(),
            0x140 <= k,
            k <= len || k == 0x140,
            forall|j: int| 0 <= j < k && j < len ==> buf@[j] == #[trigger] audio_masked(
                data,
                amask@,
            )[j],
            forall|j: int| k <= j < len ==> buf@[j] == data[j],
        decreases len - k,
    {
        buf[k] = buf[k] ^ amask[(k - 0x140) % MASK_LEN];
        k += 1;
    }
    assert(buf@ =~= audio_masked(data, amask@));
}

/// The payload of a video chunk under the mask of a key.
pub fn apply_video_mask(data: &[u8], key: u64) -> (r: Vec<u8>)
    ensures
        r@ == video_masked(data@, mask_bytes(key), tail_mask_bytes(key)),
{
    let (vmask, _) = get_mask(key);
    let len: usize = data.len();
    let mut result = crate::bytes::copy_bytes(data);
    if len < 0x240 {
        return result;
    }
    let ghost head = mask_bytes(key);
    let ghost tail = tail_mask_bytes(key);
    let mut mask: [u8; MASK_LEN] = vmask.0;
    let mut i: usize = 0;
    while i < 0x100
        invariant
            len == result@.len() == data@.len(),
            len >= 0x240,
            i <= 0x100,
            forall|k: int|
                0x40 <= k < 0x40 + i ==> #[trigger] result@[k] == data@[k] ^ head_mask(
                    data@,
                    head,
                    k - 0x40,
                ),
            forall|k: int| 0 <= k < 0x40 || 0x40 + i <= k < len ==> result@[k] == #[trigger] data@[k],
            forall|l: int| 0 <= l < 32 ==> mask@[l] == head_state(data@, head, i as int, l),
        decreases 0x100 - i,
    {
        let l: usize = i % MASK_LEN;
        let ghost held = mask@;
        let m: u8 = mask[l] ^ data[0x140 + i];
        mask[l] = m;
        result[0x40 + i] = data[0x40 + i] ^ m;
        proof {
            head_step(data@, head, i as int);
            assert forall|m: int| 0 <= m < 32 implies mask@[m] == head_state(
                data@,
                head,
                i + 1,
                m,
            ) by {
                assert(held[m] == head_state(data@, head, i as int, m));
            }
        }
        i += 1;
    }
    let mut mask: [u8; MASK_LEN] = vmask.1;
    let mut i: usize = 0;
    while i < len - 0x140
        invariant
            len == result@.len() == data@.len(),
            len >= 0x240,
            i <= len - 0x140,
            vmask.1@ == tail,
            tail.len() == 32,
            forall|k: int|
                0x40 <= k < 0x140 ==> #[trigger] result@[k] == data@[k] ^ head_mask(
                    data@,
                    head,
                    k - 0x40,
                ),
            forall|k: int| 0 <= k < 0x40 || 0x140 + i <= k < len ==> result@[k] == #[trigger] data@[k],
            forall|k: int|
                0x140 <= k < 0x140 + i ==> #[trigger] result@[k] == data@[k] ^ tail_mask(
                    data@,
                    tail,
                    k - 0x140,
                ),
            forall|l: int| 0 <= l < 32 ==> mask@[l] == next_mask(data@, tail, i as int, l),
        decreases len - i,
    {
        let l: usize = i % MASK_LEN;
        let ghost held = mask@;
        result[0x140 + i] = data[0x140 + i] ^ mask[l];
        mask[l] = data[0x140 + i] ^ vmask.1[l];
        proof {
            next_step(data@, tail, i as int);
            assert forall|m: int| 0 <= m < 32 implies mask@[m] == next_mask(
                data@,
                tail,
                i + 1,
                m,
            ) by {
                assert(held[m] == next_mask(data@, tail, i as int, m));
            }
        }
        i += 1;
    }
    assert(result@ =~= video_masked(data@, head, tail));
    result
}

/// The mask of lane `l` after `i` bytes behind the head have been masked.
spec fn next_mask(plain: Seq<u8>, mask: Seq<u8>, i: int, l: int) -> u8 {
    if i <= l {
        mask[l]
    } else {
        plain[0x140 + last_in_lane(i, l)] ^ mask[l]
    }
}

proof fn next_step(plain: Seq<u8>, mask: Seq<u8>, i: int)
    requires
        0 <= i,
    ensures
        next_mask(plain, mask, i, i % 32) == tail_mask(plain, mask, i),
        next_mask(plain, mask, i + 1, i % 32) == plain[0x140 + i] ^ mask[i % 32],
        forall|m: int|
            0 <= m < 32 && m != i % 32 ==> next_mask(plain, mask, i + 1, m) == next_mask(
                plain,
                mask,
                i,
                m,
            ),
{
    let l = i % 32;
    lane_moves(i);
    assert forall|m: int| 0 <= m < 32 && m != l implies next_mask(plain, mask, i + 1, m)
        == next_mask(plain, mask, i, m) by {
        if i > m {
            lane_rests(i, m);
        }
    }
}

/// The payload of an audio chunk under the mask of a key.
pub fn apply_audio_mask(data: &[u8], key: u64) -> (r: Vec<u8>)
    ensures
        r@ == audio_masked(data@, audio_mask_bytes(key)),
{
    let (_, amask) = get_mask(key);
    let mut result = crate::bytes::copy_bytes(data);
    mask_audio(result.as_mut_slice(), &amask);
    result
}

proof fn xor_back(a: u8, b: u8)
    ensures
        (a ^ b) ^ b == a,
{
    assert((a ^ b) ^ b == a) by (bit_vector);
}

proof fn head_mask_reads_tail(a: Seq<u8>, b: Seq<u8>, mask: Seq<u8>, i: int)
    requires
        0 <= i < 0x100,
        a.len() == b.len() >= 0x240,
        forall|k: int| 0x140 <= k < a.len() ==> a[k] == b[k],
    ensures
        head_mask(a, mask, i) == head_mask(b, mask, i),
    decreases i,
{
    if i >= 32 {
        head_mask_reads_tail(a, b, mask, i - 32);
    }
}

proof fn tail_comes_back(plain: Seq<u8>, head: Seq<u8>, tail: Seq<u8>, i: int)
    requires
        plain.len() >= 0x240,
        0 <= i < plain.len() - 0x140,
    ensures
        tail_plain(video_masked(plain, head, tail), tail, i) == plain[0x140 + i],
    decreases i,
{
    if i >= 32 {
        tail_comes_back(plain, head, tail, i - 32);
    }
    xor_back(plain[0x140 + i], tail_mask(plain, tail, i));
}

/// Taking the mask off a video payload gives back what it was put on.
pub proof fn video_mask_comes_off(plain: Seq<u8>, head: Seq<u8>, tail: Seq<u8>)
    ensures
        video_unmasked(video_masked(plain, head, tail), head, tail) == plain,
{
    if plain.len() >= 0x240 {
        let c = video_masked(plain, head, tail);
        let t = tail_unmasked(c, tail);
        assert forall|k: int| 0x140 <= k < plain.len() implies t[k] == plain[k] by {
            tail_comes_back(plain, head, tail, k - 0x140);
        }
        assert forall|k: int| 0 <= k < plain.len() implies #[trigger] video_unmasked(
            c,
            head,
            tail,
        )[k] == plain[k] by {
            if 0x40 <= k < 0x140 {
                head_mask_reads_tail(t, plain, head, k - 0x40);
                xor_back(plain[k], head_mask(plain, head, k - 0x40));
            }
        }
        assert(video_unmasked(c, head, tail) =~= plain);
    }
}

/// Putting the mask on again gives back the masked video payload.
pub proof fn video_mask_goes_on(masked: Seq<u8>, head: Seq<u8>, tail: Seq<u8>)
    ensures
        video_masked(video_unmasked(masked, head, tail), head, tail) == masked,
{
    if masked.len() >= 0x240 {
        let p = video_unmasked(masked, head, tail);
        let t = tail_unmasked(masked, tail);
        assert forall|k: int| 0 <= k < masked.len() implies #[trigger] video_masked(
            p,
            head,
            tail,
        )[k] == masked[k] by {
            if 0x40 <= k < 0x140 {
                head_mask_reads_tail(t, p, head, k - 0x40);
                xor_back(masked[k], head_mask(p, head, k - 0x40));
            } else if k >= 0x140 {
                let i = k - 0x140;
                if i >= 32 {
                    assert(p[k - 32] == tail_plain(masked, tail, i - 32));
                }
                xor_back(masked[k], tail_mask(p, tail, i));
            }
        }
        assert(video_masked(p, head, tail) =~= masked);
    }
}

/// The audio mask applied twice changes nothing.
pub proof fn audio_mask_undoes_itself(data: Seq<u8>, mask: Seq<u8>)
    ensures
        audio_masked(audio_masked(data, mask), mask) == data,
{
    assert forall|k: int| 0x140 <= k < data.len() implies (data[k] ^ mask[(k - 0x140) % 32])
        ^ mask[(k - 0x140) % 32] == #[trigger] data[k] by {
        xor_back(data[k], mask[(k - 0x140) % 32]);
    }
    assert(audio_masked(audio_masked(data, mask), mask) =~= data);
}

} // verus!
