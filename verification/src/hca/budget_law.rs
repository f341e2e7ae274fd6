//! A frame whose levels were chosen from the cost of its values fits.

use vstd::prelude::*;
use crate::hca::budget::{
    band_bits, band_noise, best_delta, boundary_search, chosen_levels, delta_cost,
    encode_resolution, escaped, frame_bits, level_is_edge, level_of, noise_search, silenced,
    used_bits, value_bits, values_bits, wide_codes, with_header_length, with_header_lengths,
    with_resolutions,
};
use crate::hca::decoder::ChannelType;
use crate::hca::encoder::{EncodeModel, EncoderModel};
use crate::hca::pack::{
    delta_fields, frame_fields, header_fields, opening_fields, scale_fields, side_fields,
    spectra_fields, subframe_fields, total, total_sum, value_fields, values_fields, Field,
};

verus! {

proof fn one_total(f: Field)
    ensures
        total(seq![f]) == f.bits,
{
    assert(seq![f].drop_last() =~= Seq::empty());
    assert(total(seq![f].drop_last()) == 0);
    assert(seq![f].last() == f);
}

proof fn value_total(resolution: u8, v: i32)
    requires
        resolution <= 15,
    ensures
        total(value_fields(resolution, v)) == value_bits(resolution, v),
{
    let f = value_fields(resolution, v);
    if resolution == 0 {
    } else if resolution < 8 {
        one_total(f[0]);
        assert(f =~= seq![f[0]]);
    } else {
        wide_codes(resolution as int);
        one_total(f[0]);
        if v == 0 {
            assert(f =~= seq![f[0]]);
        } else {
            assert(f.drop_last() =~= seq![f[0]]);
        }
    }
}

proof fn even_total(f: Seq<Field>, bits: nat)
    requires
        forall|i: int| 0 <= i < f.len() ==> (#[trigger] f[i]).bits == bits,
    ensures
        total(f) == f.len() * bits,
    decreases f.len(),
{
    if f.len() > 0 {
        even_total(f.drop_last(), bits);
        assert(f.last().bits == bits);
        assert((f.len() - 1) * bits + bits == f.len() * bits) by (nonlinear_arith);
    } else {
        assert(0 * bits == 0) by (nonlinear_arith);
    }
}

proof fn delta_total(sf: Seq<u8>, bits: nat, n: nat)
    ensures
        9 + total(delta_fields(sf, bits, n)) == delta_cost(sf, n, bits),
    decreases n,
{
    if n > 1 {
        delta_total(sf, bits, (n - 1) as nat);
        let f = delta_fields(sf, bits, n);
        let rest = delta_fields(sf, bits, (n - 1) as nat);
        if escaped(sf, n - 1, bits) {
            assert(f.drop_last().drop_last() =~= rest);
            assert(total(f.drop_last()) == total(rest) + bits);
        } else {
            assert(f.drop_last() =~= rest);
        }
    }
}

proof fn best_is_real(sf: Seq<u8>, coded: nat, k: nat)
    requires
        k <= 5,
    ensures
        ({
            let b = best_delta(sf, coded, k);
            ||| b.bits == 6 && b.length == 3 + 6 * coded
            ||| 1 <= b.bits <= 5 && b.length == delta_cost(sf, coded, b.bits as nat)
        }),
    decreases k,
{
    if k > 0 {
        best_is_real(sf, coded, (k - 1) as nat);
    }
}

/// The header length of a channel is what its scale factors and its side
/// information take.
proof fn header_total(c: EncodeModel, groups: nat)
    requires
        c == with_header_length(c, groups),
    ensures
        total(scale_fields(c)) + total(side_fields(c, groups)) == c.header_length,
{
    let width = seq![Field { value: c.delta_bits as nat, bits: 3 }];
    best_is_real(c.scale_factors, c.coded_count, 5);
    one_total(width[0]);
    assert(width =~= seq![width[0]]);
    if c.delta_bits == 6 {
        let plain = Seq::new(
            c.coded_count,
            |b: int| Field { value: c.scale_factors[b] as nat, bits: 6 },
        );
        even_total(plain, 6);
        total_sum(width, plain);
    } else if c.delta_bits != 0 {
        let first = seq![Field { value: c.scale_factors[0] as nat, bits: 6 }];
        let rest = delta_fields(c.scale_factors, c.delta_bits as nat, c.coded_count);
        one_total(first[0]);
        assert(first =~= seq![first[0]]);
        total_sum(width, first);
        total_sum(width + first, rest);
        delta_total(c.scale_factors, c.delta_bits as nat, c.coded_count);
    }
    if c.channel_type == ChannelType::StereoSecondary {
        even_total(side_fields(c, groups), 4);
    } else {
        even_total(side_fields(c, groups), 6);
    }
}

/// The values of a band, by subframe.
pub open spec fn band_values(c: EncodeModel, b: int) -> Seq<i32> {
    Seq::new(8, |s: int| c.quantized[s][b])
}

/// The bits of the first `m` bands in the first `n` subframes.
spec fn block_bits(c: EncodeModel, n: nat, m: nat) -> nat
    decreases m,
{
    if m == 0 {
        0
    } else {
        block_bits(c, n, (m - 1) as nat) + values_bits(
            c.resolutions[m - 1],
            band_values(c, m - 1),
            n,
        )
    }
}

/// One subframe more adds its fields.
proof fn block_step(c: EncodeModel, n: nat, m: nat)
    requires
        1 <= n <= 8,
        forall|b: int| 0 <= b < m ==> #[trigger] c.resolutions[b] <= 15,
    ensures
        block_bits(c, n, m) == block_bits(c, (n - 1) as nat, m) + total(
            spectra_fields(c, n - 1, m),
        ),
    decreases m,
{
    if m > 0 {
        block_step(c, n, (m - 1) as nat);
        let v = c.quantized[n - 1][m - 1];
        assert(band_values(c, m - 1)[n - 1] == v);
        assert(c.resolutions[m - 1] <= 15);
        value_total(c.resolutions[m - 1], v);
        total_sum(
            spectra_fields(c, n - 1, (m - 1) as nat),
            value_fields(c.resolutions[m - 1], v),
        );
    }
}

proof fn no_block(c: EncodeModel, m: nat)
    ensures
        block_bits(c, 0, m) == 0,
    decreases m,
{
    if m > 0 {
        no_block(c, (m - 1) as nat);
    }
}

/// The bits of the values of the first `k` channels in the first `n`
/// subframes.
spec fn all_bits(e: EncoderModel, n: nat, k: nat) -> nat
    decreases k,
{
    if k == 0 {
        0
    } else {
        let c = e.channel[k - 1];
        all_bits(e, n, (k - 1) as nat) + block_bits(c, n, c.coded_count)
    }
}

/// Whether the resolutions of the coded bands are in range.
spec fn resolved_well(e: EncoderModel) -> bool {
    forall|i: int, b: int|
        0 <= i < e.config.channels && 0 <= b < e.channel[i].coded_count
            ==> #[trigger] e.channel[i].resolutions[b] <= 15
}

proof fn subframe_total(e: EncoderModel, n: nat, k: nat)
    requires
        1 <= n <= 8,
        k <= e.config.channels,
        resolved_well(e),
    ensures
        all_bits(e, n, k) == all_bits(e, (n - 1) as nat, k) + total(subframe_fields(e, n - 1, k)),
    decreases k,
{
    if k > 0 {
        subframe_total(e, n, (k - 1) as nat);
        let c = e.channel[k - 1];
        assert forall|b: int| 0 <= b < c.coded_count implies #[trigger] c.resolutions[b] <= 15 by {
            assert(e.channel[k - 1].resolutions[b] <= 15);
        }
        block_step(c, n, c.coded_count);
        total_sum(
            subframe_fields(e, n - 1, (k - 1) as nat),
            spectra_fields(c, n - 1, c.coded_count),
        );
    }
}

proof fn none_before(e: EncoderModel, k: nat)
    ensures
        all_bits(e, 0, k) == 0,
    decreases k,
{
    if k > 0 {
        none_before(e, (k - 1) as nat);
        no_block(e.channel[k - 1], e.channel[k - 1].coded_count);
    }
}

proof fn values_total(e: EncoderModel, n: nat)
    requires
        n <= 8,
        resolved_well(e),
    ensures
        total(values_fields(e, n)) == all_bits(e, n, e.config.channels as nat),
    decreases n,
{
    if n == 0 {
        none_before(e, e.config.channels as nat);
    } else {
        values_total(e, (n - 1) as nat);
        subframe_total(e, n, e.config.channels as nat);
        total_sum(
            values_fields(e, (n - 1) as nat),
            subframe_fields(e, n - 1, e.config.channels as nat),
        );
    }
}

/// Whether the values of a channel take no more than was reckoned for them.
pub open spec fn within_costs(c: EncodeModel, costs: [[u32; 16]; 128]) -> bool {
    forall|b: int|
        0 <= b < c.coded_count ==> values_bits(c.resolutions[b], #[trigger] band_values(c, b), 8)
            <= costs[b][c.resolutions[b] as int]
}

proof fn bands_within(
    c: EncodeModel,
    costs: [[u32; 16]; 128],
    level: int,
    boundary: int,
    m: nat,
)
    requires
        m <= c.coded_count <= 128,
        c.resolutions == with_resolutions(c, level, boundary).resolutions,
        within_costs(c, costs),
    ensures
        block_bits(c, 8, m) <= band_bits(c, costs, level, boundary, m),
    decreases m,
{
    if m > 0 {
        bands_within(c, costs, level, boundary, (m - 1) as nat);
        let b = m - 1;
        assert(c.resolutions[b] == encode_resolution(
            c.scale_factors[b],
            band_noise(level, boundary, b),
        ));
        assert(values_bits(c.resolutions[b], band_values(c, b), 8)
            <= costs[b][c.resolutions[b] as int]);
    }
}

/// Whether the channels carry the way their scale factors are stored.
spec fn headed(e: EncoderModel) -> bool {
    forall|i: int|
        0 <= i < e.config.channels ==> #[trigger] e.channel[i] == with_header_length(
            e.channel[i],
            e.hfr_group_count as nat,
        )
}

proof fn search_heads(e: EncoderModel, costs: Seq<[[u32; 16]; 128]>, highest: int)
    requires
        headed(e),
        e.config.channels <= 16,
    ensures
        ({
            let s = noise_search(e, costs, highest);
            &&& headed(s.e)
            &&& s.e.config == e.config
            &&& s.e.frame_size == e.frame_size
            &&& s.e.hfr_group_count == e.hfr_group_count
            &&& s.level is Some ==> s.level->Some_0 == level_of(s.e, costs) && s.level->Some_0 >= 0
            &&& forall|i: int|
                0 <= i < e.config.channels ==> (#[trigger] s.e.channel[i]).coded_count
                    == e.channel[i].coded_count
        }),
    decreases highest,
{
    if level_of(e, costs) < 0 && highest - 2 >= 0 {
        let next = with_header_lengths(silenced(e, highest - 2));
        assert forall|i: int| 0 <= i < next.config.channels implies #[trigger] next.channel[i]
            == with_header_length(next.channel[i], next.hfr_group_count as nat) by {
            let c = silenced(e, highest - 2).channel[i];
            assert(next.channel[i] == with_header_length(c, e.hfr_group_count as nat));
        }
        search_heads(next, costs, highest - 2);
        assert forall|i: int| 0 <= i < e.config.channels implies (#[trigger] noise_search(
            e,
            costs,
            highest,
        ).e.channel[i]).coded_count == e.channel[i].coded_count by {
            assert(next.channel[i].coded_count == e.channel[i].coded_count);
        }
    }
}

/// The bisection for the boundary keeps to what fits.
proof fn boundary_fits(
    e: EncoderModel,
    costs: Seq<[[u32; 16]; 128]>,
    level: int,
    low: int,
    high: int,
)
    requires
        0 <= low <= high,
        frame_bits(e, costs, level, low) <= 8 * e.frame_size,
    ensures
        boundary_search(e, costs, level, low, high) >= 0 ==> frame_bits(
            e,
            costs,
            level,
            boundary_search(e, costs, level, low, high),
        ) <= 8 * e.frame_size,
    decreases high - low,
{
    if high - low > 1 {
        let mid = (low + high) / 2;
        if 8 * e.frame_size < frame_bits(e, costs, level, mid) {
            boundary_fits(e, costs, level, low, mid - 1);
        } else {
            boundary_fits(e, costs, level, mid, high);
        }
    }
}

/// The bits of the first `k` channels are no more than was reckoned.
proof fn channels_within(
    e: EncoderModel,
    costs: Seq<[[u32; 16]; 128]>,
    level: u32,
    boundary: u32,
    k: nat,
)
    requires
        k <= e.config.channels,
        headed(e),
        forall|i: int|
            0 <= i < e.config.channels ==> (#[trigger] e.channel[i]).coded_count <= 128
                && e.channel[i].resolutions == with_resolutions(
                e.channel[i],
                level as int,
                boundary as int,
            ).resolutions && within_costs(e.channel[i], costs[i]),
    ensures
        total(header_fields(e, level, boundary, k)) + all_bits(e, 8, k) + 16 <= used_bits(
            e.channel,
            costs,
            level as int,
            boundary as int,
            k,
        ),
    decreases k,
{
    if k == 0 {
        let f = opening_fields(level, boundary);
        assert(f.drop_last().drop_last() =~= seq![f[0]]);
        one_total(f[0]);
        assert(total(f.drop_last()) == total(f.drop_last().drop_last()) + 9);
        assert(total(f) == 32);
    } else {
        channels_within(e, costs, level, boundary, (k - 1) as nat);
        let c = e.channel[k - 1];
        let g = e.hfr_group_count as nat;
        let before = header_fields(e, level, boundary, (k - 1) as nat);
        header_total(c, g);
        total_sum(before, scale_fields(c));
        total_sum(before + scale_fields(c), side_fields(c, g));
        bands_within(c, costs[k - 1], level as int, boundary as int, c.coded_count);
    }
}

/// Whether an encoder is another one with other values in its bands.
pub open spec fn refilled(e: EncoderModel, chosen: EncoderModel) -> bool {
    &&& e == (EncoderModel { channel: e.channel, ..chosen })
    &&& e.channel.len() == 16
    &&& forall|i: int|
        0 <= i < e.config.channels ==> #[trigger] e.channel[i] == (EncodeModel {
            quantized: e.channel[i].quantized,
            ..chosen.channel[i]
        })
}

/// A frame fits where its levels were chosen from the cost of its values: with
/// values that take no more than was reckoned for them, packing the frame
/// never fails.
pub proof fn chosen_frame_fits(
    before: EncoderModel,
    costs: Seq<[[u32; 16]; 128]>,
    e: EncoderModel,
    level: u32,
    boundary: u32,
)
    requires
        before.channel.len() == 16,
        before.config.channels <= 16,
        forall|i: int|
            0 <= i < before.config.channels ==> (#[trigger] before.channel[i]).coded_count <= 128,
        chosen_levels(before, costs).levels == Some((level as int, boundary as int)),
        refilled(e, chosen_levels(before, costs).e),
        forall|i: int|
            0 <= i < e.config.channels ==> within_costs(#[trigger] e.channel[i], costs[i]),
    ensures
        total(frame_fields(e, level, boundary)) <= 8 * (e.frame_size - 2),
{
    let first = with_header_lengths(before);
    let highest = before.bands.base + before.bands.stereo - 1;
    let s = noise_search(first, costs, highest);
    assert forall|i: int| 0 <= i < first.config.channels implies #[trigger] first.channel[i]
        == with_header_length(first.channel[i], first.hfr_group_count as nat) by {
        assert(first.channel[i] == with_header_length(
            before.channel[i],
            before.hfr_group_count as nat,
        ));
    }
    search_heads(first, costs, highest);
    level_is_edge(s.e, costs);
    if level != 0 {
        boundary_fits(s.e, costs, level as int, 0, 127);
    }
    assert(frame_bits(s.e, costs, level as int, boundary as int) <= 8 * s.e.frame_size);
    let chosen = chosen_levels(before, costs).e;
    assert forall|i: int| 0 <= i < e.config.channels implies {
        let c = #[trigger] e.channel[i];
        &&& c == with_header_length(c, e.hfr_group_count as nat)
        &&& c.coded_count <= 128
        &&& c.resolutions == with_resolutions(c, level as int, boundary as int).resolutions
        &&& c.scale_factors == s.e.channel[i].scale_factors
        &&& c.coded_count == s.e.channel[i].coded_count
        &&& c.header_length == s.e.channel[i].header_length
    } by {
        let c = e.channel[i];
        assert(chosen.channel[i] == with_resolutions(
            s.e.channel[i],
            level as int,
            boundary as int,
        ));
        assert(s.e.channel[i] == with_header_length(s.e.channel[i], e.hfr_group_count as nat));
        assert(s.e.channel[i].coded_count == first.channel[i].coded_count);
        assert(first.channel[i].coded_count == before.channel[i].coded_count);
        assert(with_resolutions(c, level as int, boundary as int).resolutions
            =~= with_resolutions(s.e.channel[i], level as int, boundary as int).resolutions);
    }
    assert forall|i: int, b: int|
        0 <= i < e.config.channels && 0 <= b < e.channel[i].coded_count implies #[trigger] e.channel[i].resolutions[b]
        <= 15 by {
        let c = e.channel[i];
        assert(c.resolutions[b] == encode_resolution(
            c.scale_factors[b],
            band_noise(level as int, boundary as int, b),
        ));
    }
    let n = e.config.channels as nat;
    channels_within(e, costs, level, boundary, n);
    values_total(e, 8);
    total_sum(header_fields(e, level, boundary, n), values_fields(e, 8));
    same_use(e.channel, s.e.channel, costs, level as int, boundary as int, n);
}

/// Only scale factors, coded bands and header lengths count for the bits.
proof fn same_use(
    a: Seq<EncodeModel>,
    b: Seq<EncodeModel>,
    costs: Seq<[[u32; 16]; 128]>,
    level: int,
    boundary: int,
    n: nat,
)
    requires
        forall|i: int|
            0 <= i < n ==> (#[trigger] a[i]).scale_factors == b[i].scale_factors && a[i].coded_count
                == b[i].coded_count && a[i].header_length == b[i].header_length,
    ensures
        used_bits(a, costs, level, boundary, n) == used_bits(b, costs, level, boundary, n),
    decreases n,
{
    if n > 0 {
        same_use(a, b, costs, level, boundary, (n - 1) as nat);
        assert(a[n - 1].scale_factors == b[n - 1].scale_factors);
        same_bands(a[n - 1], b[n - 1], costs[n - 1], level, boundary, a[n - 1].coded_count);
    }
}

proof fn same_bands(
    a: EncodeModel,
    b: EncodeModel,
    costs: [[u32; 16]; 128],
    level: int,
    boundary: int,
    m: nat,
)
    requires
        a.scale_factors == b.scale_factors,
    ensures
        band_bits(a, costs, level, boundary, m) == band_bits(b, costs, level, boundary, m),
    decreases m,
{
    if m > 0 {
        same_bands(a, b, costs, level, boundary, (m - 1) as nat);
    }
}

} // verus!
