//! What a key and a decoded sample are worth.

use vstd::prelude::*;
use vstd::arithmetic::power2::{lemma2_to64, lemma_pow2_pos, pow2};
use crate::float::{float_trunc, in_unit};
use crate::hca::hca_file::{final_score, judged, new_trial, trial_step, KeyTest, KeyTrial};
use crate::hca::reconstruct::{block_score, tail_verdict};
use crate::hca::samples::{is_blank, pcm_of};
use crate::hca::scales::{first_above, intensity_from};

verus! {

/// A trial walks the blocks one after the other from its start and stops at a
/// block that the key cannot have made, whose score is below zero or above 600:
/// the key is then worth nothing. Up to 1200 blank blocks count as none. Of the
/// others a good one weighs one, a blank one thirty and any other one ten times
/// its score, until they weigh more than 3500 together.
pub proof fn trial_goes_on(t: KeyTrial, score: int)
    requires
        t.wf(),
        !t.stopped,
        t.test_frames < 7,
        t.current_frame < t.block_count,
        t.offset + t.block_size <= u32::MAX,
    ensures
        ({
            let u = trial_step(t, score);
            let weight: int = if score == 1 {
                1
            } else if score == 0 {
                30
            } else {
                10 * score
            };
            let skipped = score == 0 && t.blank_frames < 1200;
            &&& u.offset == t.offset + t.block_size
            &&& score < 0 || score > 600 ==> u.stopped && u.total_score == -1
            &&& 0 <= score <= 600 ==> u.current_frame == t.current_frame + 1
            &&& skipped ==> !u.stopped && u.blank_frames == t.blank_frames + 1 && u.test_frames
                == t.test_frames && u.total_score == t.total_score
            &&& 0 <= score <= 600 && !skipped ==> {
                &&& u.test_frames == t.test_frames + 1
                &&& u.blank_frames == t.blank_frames
                &&& u.total_score == t.total_score + weight
                &&& u.stopped <==> t.total_score + weight > 3500
            }
        }),
{
}

/// A trial starts at the first block, unless an earlier one found a better
/// place.
pub proof fn trial_starts(kt: KeyTest, header_size: u32, block_size: u32, block_count: u32)
    ensures
        ({
            let t = new_trial(kt, header_size, block_size, block_count);
            &&& kt.start_offset == 0 ==> t.offset == header_size
            &&& kt.start_offset != 0 ==> t.offset == kt.start_offset
            &&& t.block_size == block_size && t.block_count == block_count
            &&& t.test_frames == 0 && t.blank_frames == 0 && t.total_score == 0
            &&& t.current_frame == 0 && !t.stopped
        }),
{
}

/// The best score, one, is that of a key under which more than three blocks were
/// tested and weigh no more than one each. Any other key has its weight.
pub proof fn best_score_is_one(total: int, tested: int)
    ensures
        tested > 3 && 1 <= total <= tested ==> final_score(total, tested) == 1,
        !(tested > 3 && 1 <= total <= tested) ==> final_score(total, tested) == total,
{
}

/// Of two keys the one with the lower score above zero is kept, and a wrong key
/// never is.
pub proof fn better_keys_are_kept(kt: KeyTest, score: int)
    requires
        score <= i32::MAX,
    ensures
        score < 0 ==> judged(kt, score) == kt,
        score > 0 && kt.best_score <= 0 ==> judged(kt, score).best_key == kt.key && judged(
            kt,
            score,
        ).best_score == score,
        score > 0 && kt.best_score > 0 && score < kt.best_score ==> judged(kt, score).best_key
            == kt.key && judged(kt, score).best_score == score,
        kt.best_score > 0 && score >= kt.best_score ==> judged(kt, score) == kt,
        judged(kt, score).key == kt.key,
        judged(kt, score).subkey == kt.subkey,
        judged(kt, score).start_offset == kt.start_offset,
{
}

/// The end of a block: -2 where fewer than fourteen bits are left, -1 where a
/// byte between the last value and the checksum is not zero, and else 0.
pub proof fn block_ends_in_zeros(size: int, d: Seq<u8>, pos: int, k: int)
    requires
        0 <= pos,
        2 <= size <= d.len(),
    ensures
        8 * size - pos < 14 ==> tail_verdict(size, d, pos) == -2,
        8 * size - pos >= 14 && pos <= 8 * k < 8 * (size - 2) && d[k] != 0 ==> tail_verdict(
            size,
            d,
            pos,
        ) == -1,
        8 * size - pos >= 14 && (forall|j: int|
            pos <= 8 * j < 8 * (size - 2) ==> #[trigger] d[j] == 0) ==> tail_verdict(size, d, pos)
            == 0,
{
    if 8 * size - pos >= 14 {
        assert(pos <= 8 * k ==> (pos + 7) / 8 <= k);
        if forall|j: int| pos <= 8 * j < 8 * (size - 2) ==> #[trigger] d[j] == 0 {
            assert forall|j: int| (pos + 7) / 8 <= j < size - 2 implies #[trigger] d[j] == 0 by {
                assert(pos <= 8 * j);
            }
        }
    }
}

/// The samples of a block: clipped ones count, at least two; a silent block is
/// 0, one whose first channel alone is silent is 3, any other is 1.
pub proof fn samples_are_judged(
    clips: int,
    blanks: int,
    first: int,
    second: int,
    channels: int,
    samples: int,
)
    requires
        0 <= clips,
    ensures
        ({
            let r = block_score(clips, blanks, first, second, channels, samples);
            &&& clips == 1 ==> r == 2
            &&& clips > 1 ==> r == clips
            &&& clips == 0 && blanks == channels * samples ==> r == 0
            &&& clips == 0 && blanks != channels * samples && channels >= 2 && first == samples
                && second != samples ==> r == 3
            &&& clips == 0 && blanks != channels * samples && (channels < 2 || first != samples
                || second == samples) ==> r == 1
        }),
{
}

/// A number whose size is a fraction between one and two, times a power of two,
/// is cut to the whole number towards zero.
pub proof fn numbers_are_cut(bits: u32, shift: nat)
    requires
        shift <= 64,
    ensures
        ({
            let exponent = bits as int / 8_388_608 % 256;
            let fraction = bits as int % 8_388_608;
            let negative = bits >= 2_147_483_648;
            let v = float_trunc(bits, shift);
            let size = if v < 0 { -v } else { v as int };
            let power = exponent + shift - 127;
            &&& exponent == 255 && fraction != 0 ==> v == 0
            &&& exponent != 255 && power < 0 ==> v == 0
            &&& (exponent != 255 || fraction == 0) && power >= 31 ==> v == if negative {
                -2_147_483_648int
            } else {
                2_147_483_647
            }
            &&& exponent != 255 && 0 <= power < 31 ==> {
                &&& negative ==> v <= 0
                &&& !negative ==> v >= 0
                &&& size * 8_388_608 <= (8_388_608 + fraction) * pow2(power as nat)
                &&& (8_388_608 + fraction) * pow2(power as nat) < (size + 1) * 8_388_608
            }
        }),
{
    let exponent = bits as int / 8_388_608 % 256;
    let fraction = bits as int % 8_388_608;
    let power = exponent + shift - 127;
    if exponent != 255 && 0 <= power < 31 {
        let n = power as nat;
        let whole = (8_388_608 + fraction) * pow2(n);
        lemma2_to64();
        power_small(n);
        assert(0 <= whole && whole < 16_777_216 * 1_073_741_825) by (nonlinear_arith)
            requires
                whole == (8_388_608 + fraction) * pow2(n),
                0 <= fraction < 8_388_608,
                1 <= pow2(n) <= 1_073_741_824,
        ;
        let size = whole / 8_388_608;
        assert(size * 8_388_608 <= whole < (size + 1) * 8_388_608);
        assert(size <= 2_147_483_647) by (nonlinear_arith)
            requires
                size == whole / 8_388_608,
                whole == (8_388_608 + fraction) * pow2(n),
                0 <= fraction < 8_388_608,
                1 <= pow2(n) <= 1_073_741_824,
        ;
    }
}

proof fn power_small(n: nat)
    requires
        n < 31,
    ensures
        1 <= pow2(n) <= 1_073_741_824,
{
    lemma2_to64();
    lemma_pow2_pos(n);
    if n < 30 {
        vstd::arithmetic::power2::lemma_pow2_strictly_increases(n, 30);
    }
}

/// A sample is scaled by 32768, cut, and kept within 16 bits. It is clipped
/// where its size is above one, and blank where it is not and its 16-bit number
/// is zero or minus one.
pub proof fn samples_are_scaled(bits: u32)
    ensures
        ({
            let v = float_trunc(bits, 15) as int;
            &&& -32_768 <= v <= 32_767 ==> pcm_of(bits) == v
            &&& v > 32_767 ==> pcm_of(bits) == 32_767
            &&& v < -32_768 ==> pcm_of(bits) == -32_768
            &&& in_unit(bits) <==> bits as int % 2_147_483_648 <= 0x3f80_0000
            &&& is_blank(bits) <==> in_unit(bits) && -1 <= v <= 0
        }),
{
}

/// The scale factor of a value is the lowest whose size is above it, or else the
/// highest of all.
pub proof fn scale_factor_is_least(sizes: Seq<u32>, value: u32, from: nat)
    requires
        from < sizes.len(),
    ensures
        ({
            let r = first_above(sizes, value, from);
            &&& from <= r < sizes.len()
            &&& forall|j: int| from <= j < r ==> #[trigger] sizes[j] <= value
            &&& r + 1 < sizes.len() ==> sizes[r as int] > value
        }),
    decreases sizes.len() - from,
{
    if from + 1 < sizes.len() && sizes[from as int] <= value {
        scale_factor_is_least(sizes, value, from + 1);
    }
}

/// The intensity of a ratio is the lowest whose bound the ratio exceeds, or else
/// thirteen.
pub proof fn intensity_is_least(bounds: Seq<u32>, ratio: u32, from: nat)
    requires
        from <= 13,
        bounds.len() == 14,
    ensures
        ({
            let r = intensity_from(bounds, ratio, from);
            &&& from <= r <= 13
            &&& forall|j: int| from <= j < r ==> #[trigger] bounds[j] >= ratio
            &&& r < 13 ==> bounds[r as int] < ratio
        }),
    decreases 13 - from,
{
    if from < 13 && bounds[from as int] >= ratio {
        intensity_is_least(bounds, ratio, from + 1);
    }
}

} // verus!
