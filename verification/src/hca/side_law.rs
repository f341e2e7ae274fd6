//! How the side information of a block is stored, and how little of it.

use vstd::prelude::*;
use vstd::arithmetic::power2::lemma2_to64;
use crate::hca::bitreader::peeked;
use crate::hca::bits::word;
use crate::hca::block::packed_noise;
use crate::hca::budget::{best_delta, delta_choice, delta_cost};
use crate::hca::decoder::{ChannelModel, ChannelType, HeaderModel};
use crate::hca::encoder::frame_size_of;
use crate::hca::unpack::{
    codes_of, code_value, delta_intensity, hfr_scales, intensity_deltas, intensity_step,
    legacy_intensity, scale_deltas, scale_factors_of, scale_values, sorted_bands, used_bits,
    IntensityState,
};
use crate::hca::tables::MAX_BIT_TABLE;

verus! {

/// The difference code that says that nothing changes: the middle one below the
/// highest, which announces a plain value.
pub open spec fn same_code(bits: nat) -> int {
    if bits == 1 {
        0
    } else if bits == 2 {
        1
    } else if bits == 3 {
        3
    } else if bits == 4 {
        7
    } else {
        15
    }
}

/// Scale factors that are stored by differences: the first has six bits. Each
/// next one has a code that counts up or down from the middle code, or the
/// highest code and six bits.
pub proof fn scale_factors_step(d: Seq<u8>, held: Seq<u8>, p: nat, bits: nat, n: nat)
    requires
        1 <= bits <= 5,
        2 <= n <= held.len(),
    ensures
        ({
            let first = scale_deltas(d, held, p, bits, 1);
            let s = scale_deltas(d, held, p, bits, (n - 1) as nat);
            let t = scale_deltas(d, held, p, bits, n);
            let code = word(d, s.pos, bits) as int;
            let step = code - same_code(bits);
            &&& first.ok && first.value == word(d, p, 6) as u8 && first.values[0] == first.value
            &&& first.pos == p + 6
            &&& t.ok ==> s.ok && t.values == s.values.update(n - 1, t.value)
            &&& s.ok && code == 2 * same_code(bits) + 1 ==> t.ok && t.value == word(
                d,
                s.pos + bits,
                6,
            ) as u8 && t.pos == s.pos + bits + 6
            &&& s.ok && code != 2 * same_code(bits) + 1 ==> {
                &&& t.ok <==> 0 <= s.value + step <= 63
                &&& t.ok ==> t.value == s.value + step && t.pos == s.pos + bits
            }
        }),
{
    lemma2_to64();
}

/// A width of six and more stores plain scale factors of six bits each, a width
/// of zero none: all are zero.
pub proof fn plain_scale_factors(d: Seq<u8>, c: ChannelModel, p: nat, n: nat, bits: nat, i: int)
    requires
        c.scale_factors.len() == 128,
        n <= 128,
        0 <= i < 128,
    ensures
        ({
            let u = scale_values(d, c, p, n, bits);
            &&& bits == 0 ==> u.error is None && u.pos == p && u.c.scale_factors[i] == 0
            &&& bits >= 6 ==> u.error is None && u.pos == p + 6 * n
            &&& bits >= 6 && i < n ==> u.c.scale_factors[i] == word(d, (p + 6 * i) as nat, 6) as u8
            &&& bits >= 6 && i >= n ==> u.c.scale_factors[i] == c.scale_factors[i]
        }),
{
}

/// In files after version 2.0 the scales of the high-frequency groups follow
/// those of the coded bands, and are then found at the end, one place further
/// up; the last one is zero. The width of the differences has three bits.
pub proof fn later_group_scales(h: HeaderModel, d: Seq<u8>, c: ChannelModel, p: nat, g: int)
    requires
        h.version > 0x200,
        c.channel_type != ChannelType::StereoSecondary,
        c.scale_factors.len() == 128,
        c.coded_count + h.hfr_group_count < 128,
        0 <= g < h.hfr_group_count,
        scale_factors_of(h, d, c, p).error is None,
    ensures
        ({
            let count = c.coded_count + h.hfr_group_count;
            let read = scale_values(d, c, p + 3, count as nat, peeked(d, p, 3));
            let u = scale_factors_of(h, d, c, p);
            let at = 128 - h.hfr_group_count + g;
            &&& u.pos == read.pos
            &&& g < h.hfr_group_count - 1 ==> u.c.scale_factors[at]
                == read.c.scale_factors[c.coded_count + g + 1]
            &&& g == h.hfr_group_count - 1 ==> u.c.scale_factors[at] == 0
        }),
{
}

/// In files up to version 2.0 the scales of the high-frequency groups have six
/// bits each, behind the scale factors, and are the last ones of the channel.
pub proof fn older_group_scales(d: Seq<u8>, c: ChannelModel, p: nat, groups: nat, g: int)
    requires
        groups <= 128,
        0 <= g < groups,
        c.scale_factors.len() == 128,
    ensures
        ({
            let u = hfr_scales(d, c, p, groups);
            &&& u.error is None
            &&& u.pos == p + 6 * groups
            &&& u.c.scale_factors[128 - groups + g] == peeked(d, (p + 6 * g) as nat, 6) as u8
        }),
{
}

/// In files up to version 2.0 the eight intensities have four bits each; a
/// first one of fifteen stands alone and takes no bits.
pub proof fn older_intensities(d: Seq<u8>, c: ChannelModel, p: nat, i: int)
    requires
        0 <= i < 8,
    ensures
        ({
            let u = legacy_intensity(d, c, p);
            let first = peeked(d, p, 4) as u8;
            &&& u.error is None
            &&& u.c.intensity[0] == first
            &&& first < 15 ==> u.pos == p + 32 && u.c.intensity[i] == peeked(
                d,
                (p + 4 * i) as nat,
                4,
            ) as u8
            &&& first >= 15 ==> u.pos == p && (i > 0 ==> u.c.intensity[i] == 0)
        }),
{
    assert(p + 4 * 0 == p);
}

/// In files after version 2.0 a first intensity of fifteen means that all are
/// seven. Else two bits tell how the others are stored: three as four bits
/// each, others by differences of one bit more.
pub proof fn later_intensities(d: Seq<u8>, c: ChannelModel, p: nat, i: int)
    requires
        0 <= i < 8,
        c.intensity.len() == 8,
    ensures
        ({
            let u = delta_intensity(d, c, p);
            let first = peeked(d, p, 4) as u8;
            let bits = peeked(d, p + 4, 2);
            let start = IntensityState {
                error: None,
                values: c.intensity.update(0, first),
                value: first,
                pos: p + 6,
            };
            &&& first >= 15 ==> u.error is None && u.pos == p + 4 && u.c.intensity[i] == 7
            &&& first < 15 && bits == 3 ==> u.error is None && u.pos == p + 34
                && u.c.intensity[0] == first
            &&& first < 15 && bits == 3 && i > 0 ==> u.c.intensity[i] == peeked(
                d,
                (p + 6 + 4 * (i - 1)) as nat,
                4,
            ) as u8
            &&& first < 15 && bits < 3 ==> {
                let s = intensity_deltas(
                    d,
                    start,
                    bits,
                    (2 * same_code(bits + 1) + 1) as u8,
                    8,
                );
                u.error == s.error && u.pos == s.pos && u.c.intensity == s.values
            }
        }),
{
    assert(p + 2 + 4 * i == p + 6 + 4 * (i - 1));
}

/// An intensity that is stored by its difference counts up or down from the
/// middle code, or has the highest code and four bits. It is at most fifteen.
pub proof fn intensities_step(d: Seq<u8>, p: nat, value: u8, code: u8, bits: nat)
    requires
        1 <= bits <= 3,
        value <= 15,
        code <= 2 * same_code(bits) + 1,
    ensures
        ({
            let top = (2 * same_code(bits) + 1) as u8;
            let next = value + code - same_code(bits);
            let r = intensity_step(d, p, value, code, top);
            &&& code == top ==> r is Ok && r->Ok_0 == (peeked(d, p, 4) as u8, p + 4)
            &&& code < top && 0 <= next <= 15 ==> r is Ok && r->Ok_0.0 == next && r->Ok_0.1 == p
            &&& code < top && !(0 <= next <= 15) ==> r is Err
        }),
{
}

/// Values of a subframe are read one after the other: each band takes the bits
/// of its code, and those alone.
pub proof fn values_step(d: Seq<u8>, res: Seq<u8>, held: Seq<i32>, p: nat, n: nat)
    requires
        n < held.len(),
    ensures
        ({
            let s = codes_of(d, res, held, p, n);
            let t = codes_of(d, res, held, p, n + 1);
            let code = word(d, s.pos, MAX_BIT_TABLE[res[n as int] as int] as nat);
            &&& codes_of(d, res, held, p, 0).pos == p
            &&& t.pos == s.pos + used_bits(res[n as int] as int, code)
            &&& t.codes == s.codes.update(n as int, code_value(res[n as int] as int, code))
        }),
{
}

/// The noise level of a block is its level of nine bits behind the sync word
/// times 256, less its boundary of seven bits.
pub proof fn noise_level_tells(d: Seq<u8>)
    requires
        peeked(d, 16, 9) < 512,
        peeked(d, 25, 7) < 128,
        peeked(d, 16, 9) > 0 || peeked(d, 25, 7) == 0,
    ensures
        packed_noise(d) == 256 * peeked(d, 16, 9) - peeked(d, 25, 7),
{
}

/// The lists of a channel: bands with a scale factor, those without a
/// resolution from the front in order, those with one from the end downwards.
pub proof fn bands_are_sorted(c: ChannelModel, res: Seq<u8>, n: nat)
    requires
        n <= 128,
        c.noises.len() == 128,
    ensures
        ({
            let s = sorted_bands(c, res, n);
            &&& s.noises.len() == 128
            &&& s.noise_count + s.valid_count <= n
            &&& forall|k: int|
                0 <= k < s.noise_count ==> {
                    let b = #[trigger] s.noises[k];
                    b < n && c.scale_factors[b as int] > 0 && res[b as int] == 0
                }
            &&& forall|k: int|
                128 - s.valid_count <= k < 128 ==> {
                    let b = #[trigger] s.noises[k];
                    b < n && c.scale_factors[b as int] > 0 && res[b as int] > 0
                }
            &&& forall|j: int, k: int|
                0 <= j < k < s.noise_count ==> #[trigger] s.noises[j] < #[trigger] s.noises[k]
            &&& forall|j: int, k: int|
                128 - s.valid_count <= j < k < 128 ==> #[trigger] s.noises[j]
                    > #[trigger] s.noises[k]
            &&& forall|b: int|
                0 <= b < n && #[trigger] c.scale_factors[b] > 0 && res[b] == 0 ==> exists|k: int|
                    0 <= k < s.noise_count && #[trigger] s.noises[k] == b
            &&& forall|b: int|
                0 <= b < n && #[trigger] c.scale_factors[b] > 0 && res[b] > 0 ==> exists|k: int|
                    128 - s.valid_count <= k < 128 && #[trigger] s.noises[k] == b
        }),
    decreases n,
{
    if n > 0 {
        let m = (n - 1) as nat;
        bands_are_sorted(c, res, m);
        let was = sorted_bands(c, res, m);
        let s = sorted_bands(c, res, n);
        assert forall|b: int|
            0 <= b < n && #[trigger] c.scale_factors[b] > 0 && res[b] == 0 implies exists|k: int|
            0 <= k < s.noise_count && #[trigger] s.noises[k] == b by {
            if b < m {
                let k = choose|k: int| 0 <= k < was.noise_count && #[trigger] was.noises[k] == b;
                assert(s.noises[k] == b);
            } else {
                assert(s.noises[was.noise_count as int] == b);
            }
        }
        assert forall|b: int|
            0 <= b < n && #[trigger] c.scale_factors[b] > 0 && res[b] > 0 implies exists|k: int|
            128 - s.valid_count <= k < 128 && #[trigger] s.noises[k] == b by {
            if b < m {
                let k = choose|k: int|
                    128 - was.valid_count <= k < 128 && #[trigger] was.noises[k] == b;
                assert(s.noises[k] == b);
            } else {
                assert(s.noises[127 - was.valid_count] == b);
            }
        }
    }
}

proof fn best_is_least(sf: Seq<u8>, coded: nat, k: nat, w: nat)
    requires
        k <= 5,
        1 <= w <= k,
    ensures
        best_delta(sf, coded, k).length <= delta_cost(sf, coded, w),
        best_delta(sf, coded, k).length <= 3 + 6 * coded,
    decreases k,
{
    assert(best_delta(sf, coded, 0).length == 3 + 6 * coded);
    if k > 1 {
        if w < k {
            best_is_least(sf, coded, (k - 1) as nat, w);
        } else {
            best_is_least(sf, coded, (k - 1) as nat, 1);
        }
    }
}

proof fn best_is_one(sf: Seq<u8>, coded: nat, k: nat)
    requires
        k <= 5,
    ensures
        ({
            let best = best_delta(sf, coded, k);
            ||| best.bits == 6 && best.length == 3 + 6 * coded
            ||| 1 <= best.bits <= k && best.length == delta_cost(sf, coded, best.bits as nat)
        }),
    decreases k,
{
    if k > 0 {
        best_is_one(sf, coded, (k - 1) as nat);
    }
}

/// The scale factors of a channel are stored in the shortest of six ways: plain,
/// or by differences of one to five bits. Where all are zero, three bits say
/// so.
pub proof fn storage_is_shortest(sf: Seq<u8>, coded: nat, w: nat)
    requires
        1 <= w <= 5,
        coded <= sf.len(),
    ensures
        ({
            let choice = delta_choice(sf, coded);
            let silent = forall|i: int| 0 <= i < coded ==> #[trigger] sf[i] == 0;
            &&& silent ==> choice.bits == 0 && choice.length == 3
            &&& !silent ==> {
                &&& choice.length <= 3 + 6 * coded
                &&& choice.length <= delta_cost(sf, coded, w)
                &&& choice.bits == 6 ==> choice.length == 3 + 6 * coded
                &&& choice.bits != 6 ==> 1 <= choice.bits <= 5 && choice.length == delta_cost(
                    sf,
                    coded,
                    choice.bits as nat,
                )
            }
        }),
{
    best_is_least(sf, coded, 5, w);
    best_is_one(sf, coded, 5);
}

/// A difference costs its width, and six bits more where the scale factors lie
/// further apart than the middle code can say.
pub proof fn differences_cost(sf: Seq<u8>, n: nat, bits: nat)
    requires
        1 <= bits <= 5,
        2 <= n <= sf.len(),
    ensures
        ({
            let gap = sf[n - 1] - sf[n - 2];
            let more = delta_cost(sf, n, bits) - delta_cost(sf, (n - 1) as nat, bits);
            &&& delta_cost(sf, 1, bits) == 3 + 6
            &&& -same_code(bits) <= gap <= same_code(bits) ==> more == bits
            &&& !(-same_code(bits) <= gap <= same_code(bits)) ==> more == bits + 6
        }),
{
}

/// A frame is as large as the bit rate lets 1024 samples be, within limits.
pub proof fn frames_keep_the_rate(bitrate: u32, sample_rate: u32)
    requires
        sample_rate > 0,
    ensures
        ({
            let size = frame_size_of(bitrate, sample_rate) as int;
            &&& 8 <= size <= 0xFFFF
            &&& 8 < size < 0xFFFF && bitrate * 1024 / (sample_rate * 8) <= u32::MAX ==> {
                &&& size * 8 * sample_rate <= bitrate * 1024
                &&& bitrate * 1024 < (size + 1) * 8 * sample_rate
            }
        }),
{
    let a = bitrate * 1024;
    let b = sample_rate * 8;
    let q = a / b;
    assert(q >= 0 && q * b <= a && a < (q + 1) * b) by (nonlinear_arith)
        requires
            q == a / b,
            b > 0,
            a >= 0,
    ;
    assert(q * b == q * 8 * sample_rate && (q + 1) * b == (q + 1) * 8 * sample_rate)
        by (nonlinear_arith)
        requires
            b == sample_rate * 8,
    ;
}

} // verus!
