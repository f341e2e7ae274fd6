//! What the decoder reads from a frame that the encoder packed.

use vstd::prelude::*;
use vstd::arithmetic::power2::{lemma2_to64, pow2};
use crate::acb::utf::wrap32;
use crate::bytes::{be16, zeros};
use crate::hca::bitreader::peeked;
use crate::hca::bits::{bit_at, word, word_split};
use crate::hca::block::{
    block_plain, block_refused, block_unpacked, channel_unpacked, channels_unpacked,
    frames_dequantized, packed_noise, subframe_dequantized,
};
use crate::hca::budget::{band_noise, encode_resolution, escaped, widest_delta};
use crate::hca::crc::{checksum_cancels, crc16};
use crate::hca::decoder::{ChannelModel, ChannelType, HeaderModel, StateModel, HCA_VERSION_200};
use crate::hca::encoder::{clamped, encoder_wf, EncodeModel, EncoderModel};
use crate::hca::pack::{
    delta_fields, field_stands, frame_fields, header_fields, holds_fields, is_frame, magnitude,
    opening_fields, packable, scale_fields, sealed, side_fields, spectra_fields, subframe_fields,
    total, total_front, total_sum, value_fields, values_fields, Field,
};
use crate::hca::tables::{
    DEQ_USED_BASE, DEQ_USED_THRESH, INVERT_TABLE, MAX_BIT_TABLE, QUANTIZE_SPECTRUM_BITS,
    QUANTIZE_SPECTRUM_VALUE, SCALE_TO_RESOLUTION_CURVE,
};
use crate::hca::unpack::{
    code_value, codes_of, curve_position, dequantized, hfr_scales, intensity_of, legacy_intensity,
    resolution_of, resolutions, resolved, scale_deltas, scale_factors_of, scale_plain, scale_values,
    scales_moved, used_bits, Unpacked,
};

verus! {

/// Whether bytes hold fields from bit `p` on.
spec fn stands(d: Seq<u8>, p: nat, f: Seq<Field>) -> bool {
    &&& p + total(f) <= 8 * d.len()
    &&& forall|k: int|
        0 <= k < f.len() ==> #[trigger] stands_at(d, p, f, k)
}

/// Whether bytes hold field `k` of fields from bit `p` on.
spec fn stands_at(d: Seq<u8>, p: nat, f: Seq<Field>, k: int) -> bool {
    word(d, p + total(f.subrange(0, k)), f[k].bits) == f[k].value % pow2(f[k].bits)
}

/// Fields one after the other stand one after the other.
proof fn stands_split(d: Seq<u8>, p: nat, f: Seq<Field>, g: Seq<Field>)
    requires
        stands(d, p, f + g),
    ensures
        stands(d, p, f),
        stands(d, p + total(f), g),
        total(f + g) == total(f) + total(g),
{
    let h = f + g;
    total_sum(f, g);
    assert forall|k: int| 0 <= k < f.len() implies #[trigger] stands_at(d, p, f, k) by {
        assert(stands_at(d, p, h, k));
        assert(h.subrange(0, k) =~= f.subrange(0, k));
    }
    assert forall|k: int| 0 <= k < g.len() implies #[trigger] stands_at(d, p + total(f), g, k) by {
        assert(stands_at(d, p, h, f.len() + k));
        assert(h.subrange(0, f.len() + k) =~= f + g.subrange(0, k));
        total_sum(f, g.subrange(0, k));
    }
}

/// A field behind others stands behind them.
proof fn stands_pop(d: Seq<u8>, p: nat, f: Seq<Field>, x: Field)
    requires
        stands(d, p, f.push(x)),
    ensures
        stands(d, p, f),
        word(d, p + total(f), x.bits) == x.value % pow2(x.bits),
        total(f.push(x)) == total(f) + x.bits,
        p + total(f) + x.bits <= 8 * d.len(),
{
    let h = f.push(x);
    assert(h.drop_last() =~= f);
    assert(stands_at(d, p, h, f.len() as int));
    assert(h.subrange(0, f.len() as int) =~= f);
    assert forall|k: int| 0 <= k < f.len() implies #[trigger] stands_at(d, p, f, k) by {
        assert(stands_at(d, p, h, k));
        assert(h.subrange(0, k) =~= f.subrange(0, k));
    }
}

/// A field alone.
proof fn stands_one(d: Seq<u8>, p: nat, x: Field)
    requires
        stands(d, p, seq![x]),
    ensures
        word(d, p, x.bits) == x.value % pow2(x.bits),
        total(seq![x]) == x.bits,
        p + x.bits <= 8 * d.len(),
{
    assert(seq![x] =~= Seq::<Field>::empty().push(x));
    stands_pop(d, p, Seq::empty(), x);
}

/// Bits that lie in the front of some bytes.
proof fn word_in_front(front: Seq<u8>, d: Seq<u8>, p: nat, n: nat)
    requires
        front.len() <= d.len(),
        forall|i: int| 0 <= i < front.len() ==> front[i] == d[i],
        p + n <= 8 * front.len(),
    ensures
        word(front, p, n) == word(d, p, n),
    decreases n,
{
    if n > 0 {
        word_in_front(front, d, p, (n - 1) as nat);
        let q = (p + n - 1) as nat;
        assert(q / 8 < front.len());
        assert(bit_at(front, q) == bit_at(d, q));
    }
}

/// Fields that a front of some bytes holds.
proof fn front_stands(front: Seq<u8>, d: Seq<u8>, f: Seq<Field>)
    requires
        front.len() <= d.len(),
        forall|i: int| 0 <= i < front.len() ==> front[i] == d[i],
        holds_fields(front, f),
        total(f) <= 8 * front.len(),
    ensures
        stands(d, 0, f),
{
    assert forall|k: int| 0 <= k < f.len() implies #[trigger] stands_at(d, 0, f, k) by {
        total_front(f, k + 1);
        assert(f.subrange(0, k + 1).drop_last() =~= f.subrange(0, k));
        assert(field_stands(front, f, k));
        word_in_front(front, d, total(f.subrange(0, k)), f[k].bits);
    }
}

/// A short read within the bytes gives their bits.
proof fn short_read(d: Seq<u8>, p: nat, n: nat)
    requires
        1 <= n <= 25,
        p + n <= 8 * d.len(),
    ensures
        peeked(d, p, n) == word(d, p, n),
{
}

/// The value that a short code and any bits behind it are read as.
proof fn small_code(r: int, v: int, low: int)
    requires
        1 <= r <= 7,
        -r <= v <= r,
        0 <= low < (if QUANTIZE_SPECTRUM_BITS[r][v + 8] == MAX_BIT_TABLE[r] { 1int } else { 2 }),
    ensures
        ({
            let bits = QUANTIZE_SPECTRUM_BITS[r][v + 8];
            let value = QUANTIZE_SPECTRUM_VALUE[r][v + 8] as int;
            let code = if bits == MAX_BIT_TABLE[r] { value } else { 2 * value + low };
            &&& bits == MAX_BIT_TABLE[r] || bits == MAX_BIT_TABLE[r] - 1
            &&& 0 <= code < 16
            &&& value < (if bits == 1 { 2int } else if bits == 2 { 4 } else if bits == 3 { 8 } else { 16 })
            &&& 1 <= bits <= 4
            &&& used_bits(r, code as nat) == bits
            &&& code_value(r, code as nat) == v
        }),
{
    if r == 1 {
        small_code_1(v, low);
    }     else if r == 2 {
        small_code_2(v, low);
    }     else if r == 3 {
        small_code_3(v, low);
    }     else if r == 4 {
        small_code_4(v, low);
    }     else if r == 5 {
        small_code_5(v, low);
    }     else if r == 6 {
        small_code_6(v, low);
    }     else if r == 7 {
        small_code_7(v, low);
    }
}

proof fn small_code_1(v: int, low: int)
    requires
        -1 <= v <= 1,
        0 <= low < (if QUANTIZE_SPECTRUM_BITS[1][v + 8] == MAX_BIT_TABLE[1] { 1int } else { 2 }),
    ensures
        ({
            let bits = QUANTIZE_SPECTRUM_BITS[1][v + 8];
            let value = QUANTIZE_SPECTRUM_VALUE[1][v + 8] as int;
            let code = if bits == MAX_BIT_TABLE[1] { value } else { 2 * value + low };
            &&& bits == MAX_BIT_TABLE[1] || bits == MAX_BIT_TABLE[1] - 1
            &&& 0 <= code < 16
            &&& value < (if bits == 1 { 2int } else if bits == 2 { 4 } else if bits == 3 { 8 } else { 16 })
            &&& 1 <= bits <= 4
            &&& used_bits(1, code as nat) == bits
            &&& code_value(1, code as nat) == v
        }),
{
    assert(low == 0 || low == 1);
    assert(v == -1 || v == 0 || v == 1);
}

proof fn small_code_2(v: int, low: int)
    requires
        -2 <= v <= 2,
        0 <= low < (if QUANTIZE_SPECTRUM_BITS[2][v + 8] == MAX_BIT_TABLE[2] { 1int } else { 2 }),
    ensures
        ({
            let bits = QUANTIZE_SPECTRUM_BITS[2][v + 8];
            let value = QUANTIZE_SPECTRUM_VALUE[2][v + 8] as int;
            let code = if bits == MAX_BIT_TABLE[2] { value } else { 2 * value + low };
            &&& bits == MAX_BIT_TABLE[2] || bits == MAX_BIT_TABLE[2] - 1
            &&& 0 <= code < 16
            &&& value < (if bits == 1 { 2int } else if bits == 2 { 4 } else if bits == 3 { 8 } else { 16 })
            &&& 1 <= bits <= 4
            &&& used_bits(2, code as nat) == bits
            &&& code_value(2, code as nat) == v
        }),
{
    assert(low == 0 || low == 1);
    assert(v == -2 || v == -1 || v == 0 || v == 1 || v == 2);
}

proof fn small_code_3(v: int, low: int)
    requires
        -3 <= v <= 3,
        0 <= low < (if QUANTIZE_SPECTRUM_BITS[3][v + 8] == MAX_BIT_TABLE[3] { 1int } else { 2 }),
    ensures
        ({
            let bits = QUANTIZE_SPECTRUM_BITS[3][v + 8];
            let value = QUANTIZE_SPECTRUM_VALUE[3][v + 8] as int;
            let code = if bits == MAX_BIT_TABLE[3] { value } else { 2 * value + low };
            &&& bits == MAX_BIT_TABLE[3] || bits == MAX_BIT_TABLE[3] - 1
            &&& 0 <= code < 16
            &&& value < (if bits == 1 { 2int } else if bits == 2 { 4 } else if bits == 3 { 8 } else { 16 })
            &&& 1 <= bits <= 4
            &&& used_bits(3, code as nat) == bits
            &&& code_value(3, code as nat) == v
        }),
{
    assert(low == 0 || low == 1);
    assert(v == -3 || v == -2 || v == -1 || v == 0 || v == 1 || v == 2 || v == 3);
}

proof fn small_code_4(v: int, low: int)
    requires
        -4 <= v <= 4,
        0 <= low < (if QUANTIZE_SPECTRUM_BITS[4][v + 8] == MAX_BIT_TABLE[4] { 1int } else { 2 }),
    ensures
        ({
            let bits = QUANTIZE_SPECTRUM_BITS[4][v + 8];
            let value = QUANTIZE_SPECTRUM_VALUE[4][v + 8] as int;
            let code = if bits == MAX_BIT_TABLE[4] { value } else { 2 * value + low };
            &&& bits == MAX_BIT_TABLE[4] || bits == MAX_BIT_TABLE[4] - 1
            &&& 0 <= code < 16
            &&& value < (if bits == 1 { 2int } else if bits == 2 { 4 } else if bits == 3 { 8 } else { 16 })
            &&& 1 <= bits <= 4
            &&& used_bits(4, code as nat) == bits
            &&& code_value(4, code as nat) == v
        }),
{
    assert(low == 0 || low == 1);
    assert(v == -4 || v == -3 || v == -2 || v == -1 || v == 0 || v == 1 || v == 2 || v == 3
        || v == 4);
}

proof fn small_code_5(v: int, low: int)
    requires
        -5 <= v <= 5,
        0 <= low < (if QUANTIZE_SPECTRUM_BITS[5][v + 8] == MAX_BIT_TABLE[5] { 1int } else { 2 }),
    ensures
        ({
            let bits = QUANTIZE_SPECTRUM_BITS[5][v + 8];
            let value = QUANTIZE_SPECTRUM_VALUE[5][v + 8] as int;
            let code = if bits == MAX_BIT_TABLE[5] { value } else { 2 * value + low };
            &&& bits == MAX_BIT_TABLE[5] || bits == MAX_BIT_TABLE[5] - 1
            &&& 0 <= code < 16
            &&& value < (if bits == 1 { 2int } else if bits == 2 { 4 } else if bits == 3 { 8 } else { 16 })
            &&& 1 <= bits <= 4
            &&& used_bits(5, code as nat) == bits
            &&& code_value(5, code as nat) == v
        }),
{
    assert(low == 0 || low == 1);
    assert(v == -5 || v == -4 || v == -3 || v == -2 || v == -1 || v == 0 || v == 1 || v == 2
        || v == 3 || v == 4 || v == 5);
}

proof fn small_code_6(v: int, low: int)
    requires
        -6 <= v <= 6,
        0 <= low < (if QUANTIZE_SPECTRUM_BITS[6][v + 8] == MAX_BIT_TABLE[6] { 1int } else { 2 }),
    ensures
        ({
            let bits = QUANTIZE_SPECTRUM_BITS[6][v + 8];
            let value = QUANTIZE_SPECTRUM_VALUE[6][v + 8] as int;
            let code = if bits == MAX_BIT_TABLE[6] { value } else { 2 * value + low };
            &&& bits == MAX_BIT_TABLE[6] || bits == MAX_BIT_TABLE[6] - 1
            &&& 0 <= code < 16
            &&& value < (if bits == 1 { 2int } else if bits == 2 { 4 } else if bits == 3 { 8 } else { 16 })
            &&& 1 <= bits <= 4
            &&& used_bits(6, code as nat) == bits
            &&& code_value(6, code as nat) == v
        }),
{
    assert(low == 0 || low == 1);
    assert(v == -6 || v == -5 || v == -4 || v == -3 || v == -2 || v == -1 || v == 0 || v == 1
        || v == 2 || v == 3 || v == 4 || v == 5 || v == 6);
}

proof fn small_code_7(v: int, low: int)
    requires
        -7 <= v <= 7,
        0 <= low < (if QUANTIZE_SPECTRUM_BITS[7][v + 8] == MAX_BIT_TABLE[7] { 1int } else { 2 }),
    ensures
        ({
            let bits = QUANTIZE_SPECTRUM_BITS[7][v + 8];
            let value = QUANTIZE_SPECTRUM_VALUE[7][v + 8] as int;
            let code = if bits == MAX_BIT_TABLE[7] { value } else { 2 * value + low };
            &&& bits == MAX_BIT_TABLE[7] || bits == MAX_BIT_TABLE[7] - 1
            &&& 0 <= code < 16
            &&& value < (if bits == 1 { 2int } else if bits == 2 { 4 } else if bits == 3 { 8 } else { 16 })
            &&& 1 <= bits <= 4
            &&& used_bits(7, code as nat) == bits
            &&& code_value(7, code as nat) == v
        }),
{
    assert(low == 0 || low == 1);
    assert(v == -7 || v == -6 || v == -5 || v == -4 || v == -3 || v == -2 || v == -1 || v == 0
        || v == 1 || v == 2 || v == 3 || v == 4 || v == 5 || v == 6 || v == 7);
}

/// Whether a value can be coded at a resolution.
pub open spec fn value_fits(r: u8, v: i32) -> bool {
    if r == 0 {
        v == 0
    } else if r < 8 {
        -r <= v <= r
    } else {
        magnitude(v as int) < pow2((MAX_BIT_TABLE[r as int] - 1) as nat)
    }
}

/// The first bits of a code are the front of its longest form.
proof fn code_front(d: Seq<u8>, p: nat, bits: nat, value: nat, more: nat)
    requires
        word(d, p, bits) == value % pow2(bits),
        value < pow2(bits),
        more <= 1,
    ensures
        more == 0 ==> word(d, p, bits + more) == value,
        more == 1 ==> exists|low: nat|
            low < 2 && word(d, p, bits + more) == #[trigger] (2 * value + low),
{
    lemma2_to64();
    assert(value % pow2(bits) == value) by {
        vstd::arithmetic::div_mod::lemma_small_mod(value, pow2(bits));
    }
    if more == 1 {
        let low = bit_at(d, p + bits);
        assert(low < 2);
        assert(word(d, p, bits + 1) == 2 * word(d, p, bits) + bit_at(d, (p + bits) as nat));
        assert(word(d, p, bits + more) == 2 * value + low);
    }
}

/// A value is read back from its fields, whatever stands behind them.
proof fn value_read(d: Seq<u8>, p: nat, r: u8, v: i32)
    requires
        r <= 15,
        stands(d, p, value_fields(r, v)),
        value_fits(r, v),
    ensures
        ({
            let code = word(d, p, MAX_BIT_TABLE[r as int] as nat);
            &&& code_value(r as int, code) == v
            &&& used_bits(r as int, code) == total(value_fields(r, v))
        }),
{
    lemma2_to64();
    let max = MAX_BIT_TABLE[r as int] as nat;
    if r == 0 {
        assert(word(d, p, 0) == 0);
    } else if r < 8 {
        let i = v + 8;
        let bits = QUANTIZE_SPECTRUM_BITS[r as int][i] as nat;
        let value = QUANTIZE_SPECTRUM_VALUE[r as int][i] as nat;
        assert(clamped(v + 8, 0, 15) == i);
        small_code(r as int, v as int, 0);
        stands_one(d, p, Field { value, bits });
        assert(value < pow2(bits));
        code_front(d, p, bits, value, (max - bits) as nat);
        if bits < max {
            let low = choose|low: nat| low < 2 && word(d, p, max) == #[trigger] (2 * value + low);
            small_code(r as int, v as int, low as int);
        }
    } else {
        large_read(d, p, r, v);
    }
}

/// How long the codes of large resolutions are.
proof fn large_widths(r: int)
    requires
        8 <= r <= 15,
    ensures
        5 <= MAX_BIT_TABLE[r] <= 12,
        DEQ_USED_BASE[r] == MAX_BIT_TABLE[r] - 1,
        DEQ_USED_THRESH[r] == 2,
{
}

/// A value of a large resolution is read back.
proof fn large_read(d: Seq<u8>, p: nat, r: u8, v: i32)
    requires
        8 <= r <= 15,
        stands(d, p, value_fields(r, v)),
        value_fits(r, v),
    ensures
        ({
            let code = word(d, p, MAX_BIT_TABLE[r as int] as nat);
            &&& code_value(r as int, code) == v
            &&& used_bits(r as int, code) == total(value_fields(r, v))
        }),
{
    lemma2_to64();
    large_widths(r as int);
    let max = MAX_BIT_TABLE[r as int] as nat;
    let bits = (max - 1) as nat;
    let m = magnitude(v as int);
    let size = Field { value: m, bits };
    vstd::arithmetic::div_mod::lemma_small_mod(m, pow2(bits));
    if v == 0 {
        stands_one(d, p, size);
        code_front(d, p, bits, m, 1);
        let low = choose|low: nat| low < 2 && word(d, p, max) == #[trigger] (2 * m + low);
        let code = word(d, p, max);
        assert(code == low);
        assert((1 - 2 * (code % 2)) * (code / 2) == 0) by (nonlinear_arith)
            requires
                code / 2 == 0,
        ;
    } else {
        let s: nat = if v > 0 { 0 } else { 1 };
        let sign = Field { value: s, bits: 1 };
        stands_pop(d, p, seq![size], sign);
        stands_one(d, p, size);
        assert(word(d, p + bits, 1) == s);
        word_split(d, p, bits, 1);
        let code = word(d, p, max);
        assert(code == 2 * m + s);
        assert(code / 2 == m && code % 2 == s);
        if v > 0 {
            assert((1 - 2 * 0) * (m as int) == v) by (nonlinear_arith)
                requires
                    m == v,
            ;
        } else {
            assert((1 - 2 * 1) * (m as int) == v) by (nonlinear_arith)
                requires
                    m == -v,
            ;
        }
    }
}

/// Whether the values of a channel can be coded at its resolutions.
pub open spec fn values_fit(c: EncodeModel) -> bool {
    forall|s: int, b: int|
        0 <= s < 8 && 0 <= b < c.coded_count ==> value_fits(
            c.resolutions[b],
            #[trigger] c.quantized[s][b],
        )
}

/// The values of a subframe of a channel are read back.
proof fn codes_read(d: Seq<u8>, res: Seq<u8>, held: Seq<i32>, p: nat, c: EncodeModel, s: int, n: nat)
    requires
        packable(c),
        values_fit(c),
        0 <= s < 8,
        n <= c.coded_count,
        held.len() == 128,
        stands(d, p, spectra_fields(c, s, n)),
        forall|b: int| 0 <= b < c.coded_count ==> #[trigger] res[b] == c.resolutions[b],
    ensures
        ({
            let t = codes_of(d, res, held, p, n);
            &&& t.codes.len() == 128
            &&& forall|b: int| 0 <= b < n ==> #[trigger] t.codes[b] == c.quantized[s][b]
            &&& t.pos == p + total(spectra_fields(c, s, n))
        }),
    decreases n,
{
    if n == 0 {
        assert(total(spectra_fields(c, s, 0)) == 0);
    } else {
        let k = (n - 1) as nat;
        let f = spectra_fields(c, s, k);
        let v = c.quantized[s][n - 1];
        let r = c.resolutions[n - 1];
        stands_split(d, p, f, value_fields(r, v));
        codes_read(d, res, held, p, c, s, k);
        assert(r <= 15);
        assert(value_fits(r, v));
        value_read(d, p + total(f), r, v);
        assert(res[n - 1] == r);
    }
}

/// The scale factors stored by differences are read back.
proof fn deltas_read(d: Seq<u8>, held: Seq<u8>, p: nat, sf: Seq<u8>, bits: nat, n: nat)
    requires
        1 <= bits <= 5,
        1 <= n <= 128,
        sf.len() == 128,
        held.len() == 128,
        forall|i: int| 0 <= i < 128 ==> #[trigger] sf[i] < 64,
        word(d, p, 6) == sf[0],
        stands(d, p + 6, delta_fields(sf, bits, n)),
    ensures
        ({
            let s = scale_deltas(d, held, p, bits, n);
            &&& s.ok
            &&& s.values.len() == 128
            &&& s.value == sf[n - 1]
            &&& s.pos == p + 6 + total(delta_fields(sf, bits, n))
            &&& forall|i: int|
                0 <= i < 128 ==> #[trigger] s.values[i] == if i < n { sf[i] } else { held[i] }
        }),
    decreases n,
{
    lemma2_to64();
    if n == 1 {
        assert(total(delta_fields(sf, bits, 1)) == 0);
    } else {
        let k = (n - 1) as nat;
        let rest = delta_fields(sf, bits, k);
        let w = widest_delta(bits);
        let top = (2 * w + 1) as nat;
        let delta = sf[n - 1] - sf[n - 2];
        assert(sf[n - 1] < 64 && sf[n - 2] < 64);
        assert(bits == 1 || bits == 2 || bits == 3 || bits == 4 || bits == 5);
        assert(top == pow2(bits) - 1 && (pow2(bits) - 1) / 2 == w);
        if escaped(sf, n - 1, bits) {
            let mid = rest.push(Field { value: top, bits });
            stands_pop(d, p + 6, mid, Field { value: sf[n - 1] as nat, bits: 6 });
            stands_pop(d, p + 6, rest, Field { value: top, bits });
            vstd::arithmetic::div_mod::lemma_small_mod(top, pow2(bits));
            deltas_read(d, held, p, sf, bits, k);
            assert(sf[n - 1] as nat % 64 == sf[n - 1]);
        } else {
            let x = (w + delta) as nat;
            stands_pop(d, p + 6, rest, Field { value: x, bits });
            vstd::arithmetic::div_mod::lemma_small_mod(x, pow2(bits));
            deltas_read(d, held, p, sf, bits, k);
        }
    }
}

/// Fields of one width stand at multiples of it.
proof fn row_total(f: Seq<Field>, width: nat, n: int)
    requires
        0 <= n <= f.len(),
        forall|k: int| 0 <= k < f.len() ==> (#[trigger] f[k]).bits == width,
    ensures
        total(f.subrange(0, n)) == width * n,
    decreases n,
{
    if n == 0 {
        assert(f.subrange(0, 0) =~= Seq::empty());
        assert(width * 0 == 0) by (nonlinear_arith);
    } else {
        row_total(f, width, n - 1);
        assert(f.subrange(0, n).drop_last() =~= f.subrange(0, n - 1));
        assert(f.subrange(0, n).last() == f[n - 1]);
        assert(width * n == width * (n - 1) + width) by (nonlinear_arith);
    }
}

/// A row of fields of one width is read place by place.
proof fn row_read(d: Seq<u8>, p: nat, f: Seq<Field>, width: nat, k: int)
    requires
        stands(d, p, f),
        0 <= k < f.len(),
        1 <= width <= 25,
        forall|j: int| 0 <= j < f.len() ==> (#[trigger] f[j]).bits == width,
    ensures
        word(d, (p + width * k) as nat, width) == f[k].value % pow2(width),
        p + width * k + width <= 8 * d.len(),
        peeked(d, (p + width * k) as nat, width) == f[k].value % pow2(width),
        total(f) == width * f.len(),
{
    row_total(f, width, k);
    row_total(f, width, f.len() as int);
    assert(f.subrange(0, f.len() as int) =~= f);
    assert(stands_at(d, p, f, k));
    assert(width * k + width <= width * f.len()) by (nonlinear_arith)
        requires
            k + 1 <= f.len(),
            width >= 0,
    ;
    assert(width * k >= 0) by (nonlinear_arith)
        requires
            k >= 0,
            width >= 0,
    ;
    short_read(d, (p + width * k) as nat, width);
}

/// The width of the differences is read back.
proof fn width_read(d: Seq<u8>, p: nat, bits: nat, rest: Seq<Field>)
    requires
        bits <= 6,
        stands(d, p, seq![Field { value: bits, bits: 3 }] + rest),
    ensures
        peeked(d, p, 3) == bits,
        stands(d, p + 3, rest),
        total(seq![Field { value: bits, bits: 3 }] + rest) == 3 + total(rest),
{
    lemma2_to64();
    let x = Field { value: bits, bits: 3 };
    stands_split(d, p, seq![x], rest);
    stands_one(d, p, x);
    short_read(d, p, 3);
    vstd::arithmetic::div_mod::lemma_small_mod(bits, 8);
}

/// Whether reading scale factors gave those of a channel.
spec fn scales_back(u: Unpacked, c: ChannelModel, e: EncodeModel, pos: nat) -> bool {
    &&& u.error is None
    &&& u.pos == pos
    &&& u.c == (ChannelModel { scale_factors: u.c.scale_factors, ..c })
    &&& u.c.scale_factors.len() == 128
    &&& forall|i: int|
        0 <= i < e.coded_count ==> #[trigger] u.c.scale_factors[i] == e.scale_factors[i]
}

/// Plain scale factors are read back.
proof fn plain_read(d: Seq<u8>, c: ChannelModel, p: nat, e: EncodeModel)
    requires
        packable(e),
        c.scale_factors.len() == 128,
        stands(
            d,
            p,
            Seq::new(e.coded_count, |b: int| Field { value: e.scale_factors[b] as nat, bits: 6 }),
        ),
    ensures
        ({
            let f = Seq::new(
                e.coded_count,
                |b: int| Field { value: e.scale_factors[b] as nat, bits: 6 },
            );
            scales_back(scale_values(d, c, p, e.coded_count, 6), c, e, p + total(f))
        }),
{
    lemma2_to64();
    let sf = e.scale_factors;
    let f = Seq::new(e.coded_count, |b: int| Field { value: sf[b] as nat, bits: 6 });
    let got = scale_plain(d, c.scale_factors, p, e.coded_count);
    assert forall|i: int| 0 <= i < e.coded_count implies #[trigger] got[i] == sf[i] by {
        row_read(d, p, f, 6, i);
        assert(sf[i] < 64);
    }
    row_total(f, 6, f.len() as int);
    assert(f.subrange(0, f.len() as int) =~= f);
}

/// Scale factors stored by differences are read back.
proof fn differences_read(d: Seq<u8>, c: ChannelModel, p: nat, e: EncodeModel)
    requires
        packable(e),
        1 <= e.delta_bits <= 5,
        e.coded_count >= 1,
        e.scale_factors.len() == 128,
        c.scale_factors.len() == 128,
        stands(
            d,
            p,
            seq![Field { value: e.scale_factors[0] as nat, bits: 6 }] + delta_fields(
                e.scale_factors,
                e.delta_bits as nat,
                e.coded_count,
            ),
        ),
    ensures
        ({
            let f = seq![Field { value: e.scale_factors[0] as nat, bits: 6 }] + delta_fields(
                e.scale_factors,
                e.delta_bits as nat,
                e.coded_count,
            );
            scales_back(
                scale_values(d, c, p, e.coded_count, e.delta_bits as nat),
                c,
                e,
                p + total(f),
            )
        }),
{
    lemma2_to64();
    let sf = e.scale_factors;
    let x = Field { value: sf[0] as nat, bits: 6 };
    let rest = delta_fields(sf, e.delta_bits as nat, e.coded_count);
    stands_split(d, p, seq![x], rest);
    stands_one(d, p, x);
    assert(sf[0] < 64);
    vstd::arithmetic::div_mod::lemma_small_mod(sf[0] as nat, 64);
    deltas_read(d, c.scale_factors, p, sf, e.delta_bits as nat, e.coded_count);
}

/// The scale factors of a channel are read back.
proof fn scales_read(h: HeaderModel, d: Seq<u8>, c: ChannelModel, p: nat, e: EncodeModel)
    requires
        h.version == HCA_VERSION_200,
        packable(e),
        e.scale_factors.len() == 128,
        c.scale_factors.len() == 128,
        c.coded_count == e.coded_count,
        e.delta_bits == 0 ==> forall|i: int|
            0 <= i < e.coded_count ==> #[trigger] e.scale_factors[i] == 0,
        1 <= e.delta_bits <= 5 ==> e.coded_count >= 1,
        stands(d, p, scale_fields(e)),
    ensures
        scales_back(scale_factors_of(h, d, c, p), c, e, p + total(scale_fields(e))),
{
    let bits = e.delta_bits as nat;
    let sf = e.scale_factors;
    let width = seq![Field { value: bits, bits: 3 }];
    let rest = if bits == 0 {
        Seq::empty()
    } else if bits == 6 {
        Seq::new(e.coded_count, |b: int| Field { value: sf[b] as nat, bits: 6 })
    } else {
        seq![Field { value: sf[0] as nat, bits: 6 }] + delta_fields(sf, bits, e.coded_count)
    };
    assert(scale_fields(e) =~= width + rest);
    width_read(d, p, bits, rest);
    if bits == 0 {
        assert(scales_back(scale_values(d, c, p + 3, c.coded_count, 0), c, e, p + 3));
    } else if bits == 6 {
        plain_read(d, c, p + 3, e);
    } else {
        differences_read(d, c, p + 3, e);
    }
    let u = scale_values(d, c, p + 3, c.coded_count, bits);
    assert(scales_back(u, c, e, p + 3 + total(rest)));
    assert(scales_moved(u.c.scale_factors, c.coded_count, 0) =~= u.c.scale_factors);
}

/// What stands behind the scale factors is read back.
proof fn sides_read(h: HeaderModel, d: Seq<u8>, c: ChannelModel, p: nat, e: EncodeModel)
    requires
        h.version == HCA_VERSION_200,
        h.hfr_group_count <= 8,
        c.channel_type == e.channel_type,
        c.scale_factors.len() == 128,
        c.intensity.len() == 8,
        e.intensity.len() == 8,
        e.hfr_scales.len() == 8,
        e.channel_type == ChannelType::StereoSecondary ==> e.intensity[0] < 15 && forall|i: int|
            0 <= i < 8 ==> #[trigger] e.intensity[i] < 16,
        forall|i: int| 0 <= i < 8 ==> #[trigger] e.hfr_scales[i] < 64,
        e.coded_count + h.hfr_group_count <= 128,
        stands(d, p, side_fields(e, h.hfr_group_count as nat)),
    ensures
        ({
            let u = intensity_of(h, d, c, p);
            let g = h.hfr_group_count as int;
            &&& u.error is None
            &&& u.pos == p + total(side_fields(e, h.hfr_group_count as nat))
            &&& u.c == (ChannelModel {
                scale_factors: u.c.scale_factors,
                intensity: u.c.intensity,
                ..c
            })
            &&& u.c.scale_factors.len() == 128
            &&& u.c.intensity.len() == 8
            &&& forall|i: int|
                0 <= i < e.coded_count ==> #[trigger] u.c.scale_factors[i] == c.scale_factors[i]
            &&& e.channel_type == ChannelType::StereoSecondary ==> u.c.intensity == e.intensity
            &&& e.channel_type != ChannelType::StereoSecondary ==> u.c.intensity == c.intensity
                && forall|i: int|
                0 <= i < g ==> #[trigger] e.hfr_scales[i] == u.c.scale_factors[128 - g + i]
        }),
{
    lemma2_to64();
    let g = h.hfr_group_count as nat;
    let f = side_fields(e, g);
    if e.channel_type == ChannelType::StereoSecondary {
        row_read(d, p, f, 4, 0);
        assert(e.intensity[0] < 16);
        assert forall|i: int| 0 <= i < 8 implies peeked(d, (p + 4 * i) as nat, 4) as u8
            == #[trigger] e.intensity[i] by {
            row_read(d, p, f, 4, i);
        }
        assert(legacy_intensity(d, c, p).c.intensity =~= e.intensity);
        assert(4 * f.len() == 32);
    } else {
        row_total(f, 6, f.len() as int);
        assert(f.subrange(0, f.len() as int) =~= f);
        let u = hfr_scales(d, c, p, g);
        assert forall|i: int| 0 <= i < g implies #[trigger] e.hfr_scales[i]
            == u.c.scale_factors[128 - g + i] by {
            row_read(d, p, f, 6, i);
            assert((128 - g + i) - (128 - g) == i);
        }
    }
}

/// The two noise curves are one.
proof fn curves_agree(at: int)
    requires
        0 <= at <= 65,
    ensures
        INVERT_TABLE[at] == SCALE_TO_RESOLUTION_CURVE[if at + 1 <= 58 { at + 1 } else { 58 }],
        1 <= INVERT_TABLE[at] <= 15,
{
    assert(at == 0 || at == 1 || at == 2 || at == 3 || at == 4 || at == 5 || at == 6 || at == 7
        || at == 8 || at == 9 || at == 10 || at == 11 || at == 12 || at == 13 || at == 14
        || at == 15 || at == 16 || at == 17 || at == 18 || at == 19 || at == 20 || at == 21
        || at == 22 || at == 23 || at == 24 || at == 25 || at == 26 || at == 27 || at == 28
        || at == 29 || at == 30 || at == 31 || at == 32 || at == 33 || at == 34 || at == 35
        || at == 36 || at == 37 || at == 38 || at == 39 || at == 40 || at == 41 || at == 42
        || at == 43 || at == 44 || at == 45 || at == 46 || at == 47 || at == 48 || at == 49
        || at == 50 || at == 51 || at == 52 || at == 53 || at == 54 || at == 55 || at == 56
        || at == 57 || at == 58 || at == 59 || at == 60 || at == 61 || at == 62 || at == 63
        || at == 64 || at == 65);
}

/// The decoder works out the resolution that the encoder chose.
proof fn resolutions_agree(sf: u8, level: int, boundary: int, band: int)
    requires
        sf < 64,
        0 <= level <= 511,
        0 <= boundary <= 127,
        level == 0 ==> boundary == 0,
        0 <= band < 128,
    ensures
        resolution_of(sf, 0, wrap32(level * 256 - boundary), band, 1, 15) == encode_resolution(
            sf,
            band_noise(level, boundary, band),
        ),
{
    if sf != 0 {
        let noise = band_noise(level, boundary, band);
        let packed = level * 256 - boundary;
        assert(wrap32(packed) == packed);
        assert(wrap32(packed + band) == packed + band);
        assert((packed + band) / 256 == noise);
        let at = noise + 1 - (5 * sf) / 2;
        assert(curve_position(sf, 0, packed as u32, band) == at);
        if 0 <= at <= 65 {
            curves_agree(at);
        }
        assert(SCALE_TO_RESOLUTION_CURVE[0] == 15 && SCALE_TO_RESOLUTION_CURVE[58] == 1);
    }
}

/// Whether a channel to be encoded is what the encoder makes of it at some
/// levels.
pub open spec fn channel_ready(e: EncodeModel, level: int, boundary: int) -> bool {
    &&& packable(e)
    &&& e.scale_factors.len() == 128
    &&& e.intensity.len() == 8
    &&& e.hfr_scales.len() == 8
    &&& e.delta_bits == 0 ==> forall|i: int|
        0 <= i < e.coded_count ==> #[trigger] e.scale_factors[i] == 0
    &&& 1 <= e.delta_bits <= 5 ==> e.coded_count >= 1
    &&& e.channel_type == ChannelType::StereoSecondary ==> e.intensity[0] < 15 && forall|i: int|
        0 <= i < 8 ==> #[trigger] e.intensity[i] < 16
    &&& forall|i: int| 0 <= i < 8 ==> #[trigger] e.hfr_scales[i] < 64
    &&& forall|b: int|
        0 <= b < e.coded_count ==> #[trigger] e.resolutions[b] == encode_resolution(
            e.scale_factors[b],
            band_noise(level, boundary, b),
        )
    &&& values_fit(e)
}

/// Whether a decoded channel holds what went into its side information.
pub open spec fn sides_match(c: ChannelModel, e: EncodeModel, groups: int) -> bool {
    &&& forall|b: int|
        0 <= b < e.coded_count ==> #[trigger] c.scale_factors[b] == e.scale_factors[b]
    &&& forall|b: int| 0 <= b < e.coded_count ==> #[trigger] c.resolution[b] == e.resolutions[b]
    &&& e.channel_type == ChannelType::StereoSecondary ==> c.intensity == e.intensity
    &&& e.channel_type != ChannelType::StereoSecondary ==> forall|i: int|
        0 <= i < groups ==> #[trigger] e.hfr_scales[i] == c.scale_factors[128 - groups + i]
}

/// Whether a decoded channel holds the values that went into it.
pub open spec fn values_match(c: ChannelModel, e: EncodeModel, subframes: int) -> bool {
    forall|s: int, b: int|
        0 <= s < subframes && 0 <= b < e.coded_count ==> #[trigger] c.codes[s][b]
            == e.quantized[s][b]
}

/// Whether the lists of a decoder's channel have their lengths.
pub open spec fn channel_shaped(c: ChannelModel) -> bool {
    &&& c.intensity.len() == 8
    &&& c.scale_factors.len() == 128
    &&& c.codes.len() == 8
    &&& forall|s: int| 0 <= s < 8 ==> (#[trigger] c.codes[s]).len() == 128
}

/// The side information of a channel is read back.
proof fn channel_read(
    h: HeaderModel,
    ath: Seq<u8>,
    d: Seq<u8>,
    c: ChannelModel,
    p: nat,
    e: EncodeModel,
    level: int,
    boundary: int,
)
    requires
        h.version == HCA_VERSION_200,
        h.hfr_group_count <= 8,
        h.min_resolution == 1,
        h.max_resolution == 15,
        e.coded_count + h.hfr_group_count <= 128,
        channel_ready(e, level, boundary),
        channel_shaped(c),
        c.channel_type == e.channel_type,
        c.coded_count == e.coded_count,
        ath == zeros(128),
        0 <= level <= 511,
        0 <= boundary <= 127,
        level == 0 ==> boundary == 0,
        stands(d, p, scale_fields(e) + side_fields(e, h.hfr_group_count as nat)),
    ensures
        ({
            let noise = wrap32(level * 256 - boundary);
            let u = channel_unpacked(h, ath, noise, d, c, p);
            &&& u.error is None
            &&& u.pos == p + total(scale_fields(e) + side_fields(e, h.hfr_group_count as nat))
            &&& sides_match(u.c, e, h.hfr_group_count as int)
            &&& channel_shaped(u.c)
            &&& u.c.channel_type == c.channel_type
            &&& u.c.coded_count == c.coded_count
        }),
{
    reveal(channel_unpacked);
    let noise = wrap32(level * 256 - boundary);
    let g = h.hfr_group_count as nat;
    stands_split(d, p, scale_fields(e), side_fields(e, g));
    scales_read(h, d, c, p, e);
    let u = scale_factors_of(h, d, c, p);
    sides_read(h, d, u.c, u.pos, e);
    let v = intensity_of(h, d, u.c, u.pos);
    let w = resolved(h, ath, noise, v.c);
    assert forall|b: int| 0 <= b < e.coded_count implies #[trigger] w.resolution[b]
        == e.resolutions[b] by {
        assert(v.c.scale_factors[b] == e.scale_factors[b]) by {
            assert(u.c.scale_factors[b] == e.scale_factors[b]);
        }
        assert(e.scale_factors[b] < 64);
        resolutions_agree(e.scale_factors[b], level, boundary, b);
    }
    assert forall|b: int| 0 <= b < e.coded_count implies #[trigger] w.scale_factors[b]
        == e.scale_factors[b] by {
        assert(u.c.scale_factors[b] == e.scale_factors[b]);
        assert(v.c.scale_factors[b] == u.c.scale_factors[b]);
    }
}

/// Whether a decoder is set up as an encoder's header says, with the hearing
/// threshold off.
pub open spec fn decoder_matches(h: HeaderModel, st: StateModel, e: EncoderModel) -> bool {
    &&& h.version == HCA_VERSION_200
    &&& h.channels == e.config.channels
    &&& h.hfr_group_count == e.hfr_group_count
    &&& h.min_resolution == 1
    &&& h.max_resolution == 15
    &&& h.frame_size == e.frame_size
    &&& (h.ciph_type != 0) == (e.config.encryption_key is Some)
    &&& st.is_valid
    &&& st.ath_curve == zeros(128)
    &&& st.channel.len() == 16
    &&& forall|i: int|
        0 <= i < e.config.channels ==> channel_shaped(#[trigger] st.channel[i])
            && st.channel[i].channel_type == e.channel[i].channel_type && st.channel[i].coded_count
            == e.channel[i].coded_count
}

/// Whether all channels to be encoded are what the encoder makes of them.
pub open spec fn encoder_ready(e: EncoderModel, level: int, boundary: int) -> bool {
    &&& encoder_wf(e)
    &&& 0 <= level <= 511
    &&& 0 <= boundary <= 127
    &&& level == 0 ==> boundary == 0
    &&& forall|i: int|
        0 <= i < e.config.channels ==> channel_ready(#[trigger] e.channel[i], level, boundary)
            && e.channel[i].coded_count + e.hfr_group_count <= 128
}

/// The side information of the first `n` channels is read back.
#[verifier::rlimit(60)]
proof fn channels_read(
    h: HeaderModel,
    st: StateModel,
    d: Seq<u8>,
    e: EncoderModel,
    level: u32,
    boundary: u32,
    n: nat,
)
    requires
        n <= e.config.channels,
        decoder_matches(h, st, e),
        encoder_ready(e, level as int, boundary as int),
        stands(d, 0, header_fields(e, level, boundary, n)),
    ensures
        ({
            let noise = wrap32(level * 256 - boundary);
            let s = channels_unpacked(h, st.ath_curve, noise, d, st.channel, 32, n);
            &&& s.error is None
            &&& s.pos == total(header_fields(e, level, boundary, n))
            &&& s.channels.len() == 16
            &&& forall|i: int|
                0 <= i < n ==> sides_match(
                    #[trigger] s.channels[i],
                    e.channel[i],
                    e.hfr_group_count as int,
                )
            &&& forall|i: int|
                0 <= i < e.config.channels ==> channel_shaped(#[trigger] s.channels[i])
                    && s.channels[i].channel_type == e.channel[i].channel_type
                    && s.channels[i].coded_count == e.channel[i].coded_count
        }),
    decreases n,
{
    let noise = wrap32(level * 256 - boundary);
    if n == 0 {
        opening_total(level, boundary);
    } else {
        let k = (n - 1) as nat;
        let f = header_fields(e, level, boundary, k);
        let c = e.channel[n - 1];
        let g = h.hfr_group_count as nat;
        let more = scale_fields(c) + side_fields(c, g);
        assert(header_fields(e, level, boundary, n) =~= f + more);
        stands_split(d, 0, f, more);
        channels_read(h, st, d, e, level, boundary, k);
        let s = channels_unpacked(h, st.ath_curve, noise, d, st.channel, 32, k);
        assert(channel_ready(c, level as int, boundary as int));
        channel_read(
            h,
            st.ath_curve,
            d,
            s.channels[n - 1],
            s.pos,
            c,
            level as int,
            boundary as int,
        );
    }
}

proof fn opening_total(level: u32, boundary: u32)
    ensures
        total(opening_fields(level, boundary)) == 32,
{
    let a = Field { value: 0xFFFF, bits: 16 };
    let b = Field { value: level as nat, bits: 9 };
    let c = Field { value: boundary as nat, bits: 7 };
    let f = opening_fields(level, boundary);
    assert(f.drop_last() =~= seq![a, b]);
    assert(f.last() == c);
    assert(seq![a, b].drop_last() =~= seq![a]);
    assert(seq![a, b].last() == b);
    assert(seq![a].drop_last() =~= Seq::empty());
    assert(seq![a].last() == a);
    reveal_with_fuel(total, 4);
}

/// The opening of a frame is read back.
proof fn opening_read(d: Seq<u8>, level: u32, boundary: u32)
    requires
        stands(d, 0, opening_fields(level, boundary)),
        level <= 511,
        boundary <= 127,
    ensures
        peeked(d, 0, 16) == 0xFFFF,
        packed_noise(d) == wrap32(level * 256 - boundary),
{
    lemma2_to64();
    vstd::arithmetic::power2::lemma2_to64_rest();
    let a = Field { value: 0xFFFF, bits: 16 };
    let b = Field { value: level as nat, bits: 9 };
    let c = Field { value: boundary as nat, bits: 7 };
    assert(opening_fields(level, boundary) =~= seq![a, b].push(c));
    stands_pop(d, 0, seq![a, b], c);
    assert(seq![a, b] =~= seq![a].push(b));
    stands_pop(d, 0, seq![a], b);
    stands_one(d, 0, a);
    short_read(d, 0, 16);
    short_read(d, 16, 9);
    short_read(d, 25, 7);
}

/// What reading values keeps of a channel.
spec fn side_kept(a: ChannelModel, b: ChannelModel) -> bool {
    b == (ChannelModel { codes: b.codes, ..a })
}

/// The values of a subframe of the first `n` channels are read back.
proof fn subframe_read(
    d: Seq<u8>,
    cs: Seq<ChannelModel>,
    p: nat,
    e: EncoderModel,
    level: int,
    boundary: int,
    s: int,
    n: nat,
)
    requires
        n <= e.config.channels,
        encoder_ready(e, level, boundary),
        0 <= s < 8,
        cs.len() == 16,
        stands(d, p, subframe_fields(e, s, n)),
        forall|i: int|
            0 <= i < e.config.channels ==> channel_shaped(#[trigger] cs[i]) && sides_match(
                cs[i],
                e.channel[i],
                e.hfr_group_count as int,
            ) && cs[i].coded_count == e.channel[i].coded_count && values_match(
                cs[i],
                e.channel[i],
                s,
            ),
    ensures
        ({
            let (done, q) = subframe_dequantized(d, cs, p, s, n);
            &&& q == p + total(subframe_fields(e, s, n))
            &&& done.len() == 16
            &&& forall|i: int|
                0 <= i < e.config.channels ==> channel_shaped(#[trigger] done[i]) && side_kept(
                    cs[i],
                    done[i],
                ) && values_match(done[i], e.channel[i], if i < n { s + 1 } else { s })
        }),
    decreases n,
{
    if n > 0 {
        let k = (n - 1) as nat;
        let c = e.channel[n - 1];
        let f = subframe_fields(e, s, k);
        stands_split(d, p, f, spectra_fields(c, s, c.coded_count));
        subframe_read(d, cs, p, e, level, boundary, s, k);
        let (done, q) = subframe_dequantized(d, cs, p, s, k);
        let was = done[n - 1];
        assert(channel_shaped(was));
        assert(side_kept(cs[n - 1], was));
        assert(channel_ready(c, level, boundary));
        assert(sides_match(cs[n - 1], c, e.hfr_group_count as int));
        codes_read(d, was.resolution, was.codes[s], q, c, s, c.coded_count);
        let (now, r) = dequantized(d, was, q, s);
        assert(channel_shaped(now)) by {
            assert forall|t: int| 0 <= t < 8 implies (#[trigger] now.codes[t]).len() == 128 by {
                if t != s {
                    assert(was.codes[t].len() == 128);
                }
            }
        }
        assert forall|t: int, b: int| 0 <= t < s + 1 && 0 <= b < c.coded_count implies #[trigger] now.codes[t][b]
            == c.quantized[t][b] by {
            if t < s {
                assert(was.codes[t][b] == c.quantized[t][b]);
            }
        }
        assert(values_match(now, c, s + 1));
    }
}

/// The values of the first `n` subframes are read back.
proof fn frames_read(
    d: Seq<u8>,
    cs: Seq<ChannelModel>,
    p: nat,
    e: EncoderModel,
    level: int,
    boundary: int,
    n: nat,
)
    requires
        n <= 8,
        encoder_ready(e, level, boundary),
        cs.len() == 16,
        stands(d, p, values_fields(e, n)),
        forall|i: int|
            0 <= i < e.config.channels ==> channel_shaped(#[trigger] cs[i]) && sides_match(
                cs[i],
                e.channel[i],
                e.hfr_group_count as int,
            ) && cs[i].coded_count == e.channel[i].coded_count,
    ensures
        ({
            let (done, q) = frames_dequantized(d, cs, p, e.config.channels as nat, n);
            &&& q == p + total(values_fields(e, n))
            &&& done.len() == 16
            &&& forall|i: int|
                0 <= i < e.config.channels ==> channel_shaped(#[trigger] done[i]) && side_kept(
                    cs[i],
                    done[i],
                ) && values_match(done[i], e.channel[i], n as int)
        }),
    decreases n,
{
    if n > 0 {
        let k = (n - 1) as nat;
        let f = values_fields(e, k);
        stands_split(d, p, f, subframe_fields(e, n - 1, e.config.channels as nat));
        frames_read(d, cs, p, e, level, boundary, k);
        let (done, q) = frames_dequantized(d, cs, p, e.config.channels as nat, k);
        subframe_read(d, done, q, e, level, boundary, n - 1, e.config.channels as nat);
        let (now, r) = subframe_dequantized(d, done, q, n - 1, e.config.channels as nat);
        assert forall|i: int| 0 <= i < e.config.channels implies channel_shaped(#[trigger] now[i])
            && side_kept(cs[i], now[i]) && values_match(now[i], e.channel[i], n as int) by {
            assert(side_kept(cs[i], done[i]));
            assert(side_kept(done[i], now[i]));
        }
    }
}

/// Whether a cipher table undoes an encryption table, and both leave the sync
/// word alone.
pub open spec fn tables_match(cipher: Seq<u8>, encrypt: Seq<u8>) -> bool {
    &&& cipher.len() == 256
    &&& encrypt.len() == 256
    &&& encrypt[255] == 255
    &&& forall|b: int| 0 <= b < 256 ==> cipher[#[trigger] encrypt[b] as int] == b
}

/// A frame that the encoder packed is accepted by the decoder and gives back
/// the scale factors, the side information, the resolutions and every value,
/// with encryption or without. The decoder is then ready for the next frame.
#[verifier::rlimit(60)]
pub proof fn frame_reads_back(
    h: HeaderModel,
    st: StateModel,
    e: EncoderModel,
    level: u32,
    boundary: u32,
    plain: Seq<u8>,
)
    requires
        decoder_matches(h, st, e),
        encoder_ready(e, level as int, boundary as int),
        is_frame(plain, e, level, boundary),
        total(frame_fields(e, level, boundary)) <= 8 * (e.frame_size - 2),
        e.config.encryption_key is Some ==> tables_match(st.cipher_table, e.encrypt_table),
    ensures
        ({
            let d = sealed(plain, e);
            let b = block_unpacked(h, st, block_plain(h, st, d));
            &&& block_refused(h, st, d) is None
            &&& b.error is None
            &&& b.pos == total(frame_fields(e, level, boundary))
            &&& forall|i: int|
                0 <= i < e.config.channels ==> sides_match(
                    #[trigger] b.channels[i],
                    e.channel[i],
                    e.hfr_group_count as int,
                ) && values_match(b.channels[i], e.channel[i], 8)
            &&& decoder_matches(h, (StateModel { channel: b.channels, ..st }), e)
        }),
{
    let n = e.frame_size as int;
    let d = sealed(plain, e);
    let body = plain.subrange(0, n - 2);
    let open = block_plain(h, st, d);
    let f = frame_fields(e, level, boundary);
    let coded = if e.config.encryption_key is Some {
        body.map_values(|b: u8| e.encrypt_table[b as int])
    } else {
        body
    };
    assert(d == coded + be16(crc16(coded)));
    checksum_cancels(coded);
    assert(d.len() == n);
    assert(d.subrange(0, n) =~= d);
    assert forall|i: int| 0 <= i < body.len() implies body[i] == open[i] by {
        if e.config.encryption_key is Some {
            assert(d[i] == e.encrypt_table[body[i] as int]);
            assert(st.cipher_table[e.encrypt_table[body[i] as int] as int] == body[i]);
        }
    }
    front_stands(body, open, f);
    let head = header_fields(e, level, boundary, e.config.channels as nat);
    stands_split(open, 0, head, values_fields(e, 8));
    first_fields(e, level, boundary, e.config.channels as nat);
    let rest = head.subrange(3, head.len() as int);
    assert(head =~= opening_fields(level, boundary) + rest);
    stands_split(open, 0, opening_fields(level, boundary), rest);
    opening_read(open, level, boundary);
    sync_kept(h, st, e, body, open, d);
    channels_read(h, st, open, e, level, boundary, e.config.channels as nat);
    let noise = wrap32(level * 256 - boundary);
    let s = channels_unpacked(
        h,
        st.ath_curve,
        noise,
        open,
        st.channel,
        32,
        e.config.channels as nat,
    );
    frames_read(open, s.channels, s.pos, e, level as int, boundary as int, 8);
    let (done, q) = frames_dequantized(open, s.channels, s.pos, e.config.channels as nat, 8);
    assert forall|i: int| 0 <= i < e.config.channels implies sides_match(
        #[trigger] done[i],
        e.channel[i],
        e.hfr_group_count as int,
    ) && values_match(done[i], e.channel[i], 8) && channel_shaped(done[i])
        && done[i].channel_type == e.channel[i].channel_type && done[i].coded_count
        == e.channel[i].coded_count by {
        assert(side_kept(s.channels[i], done[i]));
        assert(sides_match(s.channels[i], e.channel[i], e.hfr_group_count as int));
    }
}

/// A frame's fields start with its opening.
proof fn first_fields(e: EncoderModel, level: u32, boundary: u32, n: nat)
    ensures
        header_fields(e, level, boundary, n).len() >= 3,
        header_fields(e, level, boundary, n).subrange(0, 3) == opening_fields(level, boundary),
    decreases n,
{
    if n == 0 {
        assert(opening_fields(level, boundary).subrange(0, 3) =~= opening_fields(level, boundary));
    } else {
        let k = (n - 1) as nat;
        first_fields(e, level, boundary, k);
        let a = header_fields(e, level, boundary, k);
        let b = header_fields(e, level, boundary, n);
        assert(b.subrange(0, 3) =~= a.subrange(0, 3));
    }
}

/// The sync word is the same before and after encryption.
proof fn sync_kept(
    h: HeaderModel,
    st: StateModel,
    e: EncoderModel,
    body: Seq<u8>,
    open: Seq<u8>,
    d: Seq<u8>,
)
    requires
        body.len() >= 2,
        open.len() == d.len(),
        open.len() >= body.len(),
        forall|i: int| 0 <= i < body.len() ==> body[i] == open[i],
        peeked(open, 0, 16) == 0xFFFF,
        e.config.encryption_key is Some ==> e.encrypt_table[255] == 255,
        forall|i: int|
            0 <= i < body.len() ==> d[i] == if e.config.encryption_key is Some {
                e.encrypt_table[body[i] as int]
            } else {
                body[i]
            },
    ensures
        peeked(d, 0, 16) == 0xFFFF,
{
    lemma2_to64();
    crate::hca::bits::word_byte(open, 0);
    crate::hca::bits::word_byte(open, 1);
    word_split(open, 0, 8, 8);
    assert(open[0] == 255 && open[1] == 255);
    assert(body[0] == 255 && body[1] == 255);
    crate::hca::bits::word_byte(d, 0);
    crate::hca::bits::word_byte(d, 1);
    word_split(d, 0, 8, 8);
}

} // verus!
