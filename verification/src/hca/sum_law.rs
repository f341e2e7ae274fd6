//! What a checksum does not see.

use vstd::prelude::*;
use crate::hca::crc::{crc16, crc_step, division_linear, shifted8};

verus! {

/// The checksum after some bytes goes on from the checksum before them.
spec fn summed(sum: u16, d: Seq<u8>) -> u16
    decreases d.len(),
{
    if d.len() == 0 {
        sum
    } else {
        crc_step(summed(sum, d.drop_last()), d.last())
    }
}

proof fn sums_go_on(a: Seq<u8>, b: Seq<u8>)
    ensures
        crc16(a + b) == summed(crc16(a), b),
    decreases b.len(),
{
    if b.len() == 0 {
        assert(a + b =~= a);
    } else {
        sums_go_on(a, b.drop_last());
        assert((a + b).drop_last() =~= a + b.drop_last());
        assert((a + b).last() == b.last());
    }
}

/// What is added to a byte and to the sum before it comes out added.
proof fn step_adds(sum: u16, byte: u8, s: u16, b: u8)
    ensures
        crc_step(sum ^ s, byte ^ b) == crc_step(sum, byte) ^ crc_step(s, b),
{
    let x = byte as u16;
    let y = b as u16;
    assert((byte ^ b) as u16 == (byte as u16) ^ (b as u16)) by (bit_vector);
    assert((sum ^ s) ^ ((x ^ y) << 8u16) == (sum ^ (x << 8u16)) ^ (s ^ (y << 8u16)))
        by (bit_vector);
    division_linear(sum ^ (x << 8u16), s ^ (y << 8u16));
}

/// The polynomial, three bytes long, leaves no remainder.
proof fn polynomial_divides()
    ensures
        crc_step(crc_step(crc_step(0, 1), 0x80), 5) == 0,
        crc_step(0, 1) == 0x8005,
        crc_step(0x8005, 0x80) == 0x0500,
{
    assert(shifted8(0u16 ^ (1u16 << 8u16)) == 0x8005u16) by (bit_vector);
    assert(shifted8(0x8005u16 ^ (0x80u16 << 8u16)) == 0x0500u16) by (bit_vector);
    assert(shifted8(0x0500u16 ^ (5u16 << 8u16)) == 0u16) by (bit_vector);
}

/// Checksums are remainders of the division by the polynomial 0x18005: to add
/// it to three bytes anywhere in some data does not change their checksum.
pub proof fn polynomial_is_not_seen(a: Seq<u8>, x: u8, y: u8, z: u8, b: Seq<u8>)
    ensures
        crc16(a + seq![x ^ 0x01u8, y ^ 0x80u8, z ^ 0x05u8] + b) == crc16(a + seq![x, y, z] + b),
{
    let p = seq![x ^ 0x01u8, y ^ 0x80u8, z ^ 0x05u8];
    let q = seq![x, y, z];
    let s = crc16(a);
    sums_go_on(a + p, b);
    sums_go_on(a + q, b);
    sums_go_on(a, p);
    sums_go_on(a, q);
    three_bytes(s, x, y, z);
    three_bytes(s, x ^ 0x01u8, y ^ 0x80u8, z ^ 0x05u8);
    polynomial_divides();
    let s1 = crc_step(s, x);
    let s2 = crc_step(s1, y);
    let s3 = crc_step(s2, z);
    step_adds(s, x, 0, 1);
    step_adds(s1, y, 0x8005, 0x80);
    step_adds(s2, z, 0x0500, 5);
    assert(s ^ 0u16 == s && s3 ^ 0u16 == s3) by (bit_vector);
}

proof fn three_bytes(s: u16, x: u8, y: u8, z: u8)
    ensures
        summed(s, seq![x, y, z]) == crc_step(crc_step(crc_step(s, x), y), z),
{
    let q = seq![x, y, z];
    assert(q.drop_last() =~= seq![x, y]);
    assert(seq![x, y].drop_last() =~= seq![x]);
    assert(seq![x].drop_last() =~= Seq::<u8>::empty());
    reveal_with_fuel(summed, 4);
}

/// Zeros in front of some bytes do not change their checksum.
pub proof fn zeros_in_front_do_not_count(n: nat, d: Seq<u8>)
    ensures
        crc16(Seq::new(n, |i: int| 0u8) + d) == crc16(d),
    decreases n,
{
    let zeros = Seq::new(n, |i: int| 0u8);
    zeros_sum_to_zero(n);
    sums_go_on(zeros, d);
    sums_go_on(Seq::empty(), d);
    assert(Seq::<u8>::empty() + d =~= d);
}

proof fn zeros_sum_to_zero(n: nat)
    ensures
        crc16(Seq::new(n, |i: int| 0u8)) == 0,
    decreases n,
{
    if n > 0 {
        let zeros = Seq::new(n, |i: int| 0u8);
        zeros_sum_to_zero((n - 1) as nat);
        assert(zeros.drop_last() =~= Seq::new((n - 1) as nat, |i: int| 0u8));
        assert(shifted8(0u16 ^ (0u16 << 8u16)) == 0u16) by (bit_vector);
    }
}

} // verus!
