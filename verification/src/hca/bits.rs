//! Bytes as bits, most significant first.

use vstd::prelude::*;
use vstd::arithmetic::div_mod::{lemma_fundamental_div_mod_converse, lemma_mod_breakdown};
use vstd::arithmetic::power2::{lemma2_to64, lemma_pow2_adds, lemma_pow2_pos, lemma_pow2_unfold, pow2};

verus! {

/// Bit `p` of some bytes; zero past the end.
pub open spec fn bit_at(d: Seq<u8>, p: nat) -> nat {
    if p / 8 < d.len() {
        (d[(p / 8) as int] as nat / pow2((7 - p % 8) as nat)) % 2
    } else {
        0
    }
}

/// The number that the `n` bits from bit `p` on make; bits past the end are
/// zero.
pub open spec fn word(d: Seq<u8>, p: nat, n: nat) -> nat
    decreases n,
{
    if n == 0 {
        0
    } else {
        2 * word(d, p, (n - 1) as nat) + bit_at(d, (p + n - 1) as nat)
    }
}

/// `n` bits make a number below two to the `n`.
pub proof fn word_bound(d: Seq<u8>, p: nat, n: nat)
    ensures
        word(d, p, n) < pow2(n),
    decreases n,
{
    lemma2_to64();
    if n > 0 {
        word_bound(d, p, (n - 1) as nat);
        lemma_pow2_unfold(n);
    }
}

/// A run of bits is its front shifted over its back.
pub proof fn word_split(d: Seq<u8>, p: nat, a: nat, b: nat)
    ensures
        word(d, p, a + b) == word(d, p, a) * pow2(b) + word(d, p + a, b),
    decreases b,
{
    lemma2_to64();
    if b == 0 {
        assert(word(d, p, a) * pow2(0) == word(d, p, a)) by (nonlinear_arith)
            requires
                pow2(0) == 1,
        ;
    } else {
        let c = (b - 1) as nat;
        word_split(d, p, a, c);
        lemma_pow2_unfold(b);
        let w = word(d, p, a);
        let e = pow2(c);
        assert(2 * (w * e) == w * (2 * e)) by (nonlinear_arith);
    }
}

/// Bits past the end make zero.
pub proof fn word_past_end(d: Seq<u8>, p: nat, n: nat)
    requires
        p >= 8 * d.len(),
    ensures
        word(d, p, n) == 0,
    decreases n,
{
    if n > 0 {
        word_past_end(d, p, (n - 1) as nat);
    }
}

/// A byte is the sum of its bits.
proof fn byte_sum(x: nat)
    requires
        x < 256,
    ensures
        2 * (2 * (2 * (2 * (2 * (2 * (2 * (x / 128 % 2) + x / 64 % 2) + x / 32 % 2) + x / 16 % 2)
            + x / 8 % 2) + x / 4 % 2) + x / 2 % 2) + x % 2 == x,
{
    assert(x / 128 == x / 128 % 2);
    assert(x / 64 == 2 * (x / 128) + x / 64 % 2);
    assert(x / 32 == 2 * (x / 64) + x / 32 % 2);
    assert(x / 16 == 2 * (x / 32) + x / 16 % 2);
    assert(x / 8 == 2 * (x / 16) + x / 8 % 2);
    assert(x / 4 == 2 * (x / 8) + x / 4 % 2);
    assert(x / 2 == 2 * (x / 4) + x / 2 % 2);
    assert(x == 2 * (x / 2) + x % 2);
}

/// Bit `k` of byte `i`.
proof fn byte_bit(d: Seq<u8>, i: nat, k: nat)
    requires
        i < d.len(),
        k < 8,
    ensures
        bit_at(d, 8 * i + k) == (d[i as int] as nat / pow2((7 - k) as nat)) % 2,
{
    assert((8 * i + k) / 8 == i && (8 * i + k) % 8 == k);
}

/// The eight bits of a byte make the byte.
pub proof fn word_byte(d: Seq<u8>, i: nat)
    requires
        i < d.len(),
    ensures
        word(d, 8 * i, 8) == d[i as int],
{
    lemma2_to64();
    let p = 8 * i;
    let x = d[i as int] as nat;
    byte_bit(d, i, 0);
    byte_bit(d, i, 1);
    byte_bit(d, i, 2);
    byte_bit(d, i, 3);
    byte_bit(d, i, 4);
    byte_bit(d, i, 5);
    byte_bit(d, i, 6);
    byte_bit(d, i, 7);
    assert(word(d, p, 0) == 0);
    assert(word(d, p, 1) == 2 * word(d, p, 0) + bit_at(d, p + 0));
    assert(word(d, p, 2) == 2 * word(d, p, 1) + bit_at(d, p + 1));
    assert(word(d, p, 3) == 2 * word(d, p, 2) + bit_at(d, p + 2));
    assert(word(d, p, 4) == 2 * word(d, p, 3) + bit_at(d, p + 3));
    assert(word(d, p, 5) == 2 * word(d, p, 4) + bit_at(d, p + 4));
    assert(word(d, p, 6) == 2 * word(d, p, 5) + bit_at(d, p + 5));
    assert(word(d, p, 7) == 2 * word(d, p, 6) + bit_at(d, p + 6));
    assert(word(d, p, 8) == 2 * word(d, p, 7) + bit_at(d, p + 7));
    byte_sum(x);
}

/// A quotient by a power of two drops what stands below it.
pub proof fn drop_low(hi: nat, low: nat, m: nat)
    requires
        low < pow2(m),
    ensures
        (hi * pow2(m) + low) / pow2(m) == hi,
        (hi * pow2(m) + low) % pow2(m) == low,
{
    lemma_pow2_pos(m);
    let e = pow2(m) as int;
    let x = (hi * pow2(m) + low) as int;
    assert(x == e * hi + low) by (nonlinear_arith)
        requires
            x == hi * e + low,
    ;
    lemma_fundamental_div_mod_converse(x, e, hi as int, low as int);
}

/// Bits that a 32-bit window from the first byte on shows; those behind it
/// read as zero.
pub open spec fn windowed(d: Seq<u8>, p: nat, n: nat) -> nat {
    let have = (32 - p % 8) as nat;
    if n <= have { word(d, p, n) } else { word(d, p, have) * pow2((n - have) as nat) }
}

/// What shifting a 32-bit window left and right leaves.
pub proof fn window_shift(d: Seq<u8>, i: nat, off: nat, n: nat)
    requires
        off < 8,
        1 <= n <= 32,
    ensures
        ((word(d, 8 * i, 32) * pow2(off)) % pow2(32)) / pow2((32 - n) as nat) == windowed(
            d,
            8 * i + off,
            n,
        ),
{
    let p = 8 * i + off;
    let have = (32 - off) as nat;
    assert(p % 8 == off);
    let chunk = word(d, 8 * i, 32);
    let head = word(d, 8 * i, off);
    let tail = word(d, p, have);
    word_split(d, 8 * i, off, have);
    word_bound(d, p, have);
    lemma_pow2_adds(have, off);
    lemma_pow2_pos(off);
    let low = tail * pow2(off);
    assert(chunk * pow2(off) == head * pow2(32) + low) by (nonlinear_arith)
        requires
            chunk == head * pow2(have) + tail,
            pow2(32) == pow2(have) * pow2(off),
            low == tail * pow2(off),
    ;
    assert(low < pow2(32)) by (nonlinear_arith)
        requires
            tail < pow2(have),
            pow2(32) == pow2(have) * pow2(off),
            low == tail * pow2(off),
            pow2(off) > 0,
    ;
    drop_low(head, low, 32);
    let m = (32 - n) as nat;
    if n <= have {
        let rest = (have - n) as nat;
        word_split(d, p, n, rest);
        word_bound(d, p + n, rest);
        lemma_pow2_adds(rest, off);
        assert(rest + off == m);
        let top = word(d, p, n);
        let bottom = word(d, p + n, rest);
        let back = bottom * pow2(off);
        assert(low == top * pow2(m) + back) by (nonlinear_arith)
            requires
                low == tail * pow2(off),
                tail == top * pow2(rest) + bottom,
                pow2(m) == pow2(rest) * pow2(off),
                back == bottom * pow2(off),
        ;
        assert(back < pow2(m)) by (nonlinear_arith)
            requires
                bottom < pow2(rest),
                pow2(m) == pow2(rest) * pow2(off),
                back == bottom * pow2(off),
                pow2(off) > 0,
        ;
        drop_low(top, back, m);
    } else {
        let over = (n - have) as nat;
        lemma_pow2_adds(over, m);
        lemma_pow2_pos(m);
        assert(over + m == off);
        let shown = tail * pow2(over);
        assert(low == shown * pow2(m) + 0) by (nonlinear_arith)
            requires
                low == tail * pow2(off),
                pow2(off) == pow2(over) * pow2(m),
                shown == tail * pow2(over),
        ;
        drop_low(shown, 0, m);
    }
}

/// Bit `k` of a number, counted from the least significant.
pub open spec fn number_bit(v: nat, k: nat) -> nat {
    (v / pow2(k)) % 2
}

/// The bits of a number, most significant first, make the number's low bits.
pub proof fn bits_make_number(d: Seq<u8>, p: nat, v: nat, bits: nat, n: nat)
    requires
        n <= bits,
        forall|j: nat|
            j < bits ==> #[trigger] bit_at(d, p + j) == number_bit(v, (bits - 1 - j) as nat),
    ensures
        word(d, p, n) == (v / pow2((bits - n) as nat)) % pow2(n),
    decreases n,
{
    lemma2_to64();
    if n == 0 {
    } else {
        let m = (n - 1) as nat;
        bits_make_number(d, p, v, bits, m);
        let k = (bits - n) as nat;
        let q = (v / pow2(k)) as int;
        lemma_pow2_unfold(k + 1);
        lemma_pow2_unfold(n);
        lemma_pow2_pos(k);
        lemma_pow2_pos(m);
        vstd::arithmetic::div_mod::lemma_div_denominator(v as int, pow2(k) as int, 2);
        assert(pow2(k) * 2 == pow2(k + 1));
        assert(q / 2 == v as int / pow2(k + 1) as int);
        lemma_mod_breakdown(q, 2, pow2(m) as int);
        assert(bit_at(d, p + m) == number_bit(v, (bits - 1 - m) as nat));
    }
}

} // verus!
