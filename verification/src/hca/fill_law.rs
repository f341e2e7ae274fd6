//! Which bands the missing ones are filled from, and how loud.

use vstd::prelude::*;
use crate::hca::decoder::{header_wf, ChannelModel, ChannelType, HeaderModel};
use crate::hca::reconstruct::{
    group_filled, groups_filled, high_copies, noise_copies, noise_copy, random_after, BandCopy,
    HighState,
};

verus! {

/// The first band that is not coded.
pub open spec fn first_high(h: HeaderModel) -> int {
    h.base_band_count + h.stereo_band_count
}

/// The high bands that are mirrored at the last coded one: those of all groups
/// up to version 2.0, else of the first half of the groups.
pub open spec fn mirrored_bands(h: HeaderModel) -> int {
    if h.version <= 0x200 {
        h.hfr_group_count * h.bands_per_hfr_group
    } else {
        (h.hfr_group_count as int / 2) * h.bands_per_hfr_group
    }
}

/// The high bands that are filled: all of them, unless the mirror runs out of
/// coded bands.
pub open spec fn filled_bands(h: HeaderModel) -> int {
    let all = h.total_band_count - first_high(h);
    if first_high(h) <= mirrored_bands(h) && first_high(h) < all { first_high(h) } else { all }
}

/// Whether the place of a ratio is that of two scales: 63 where they are equal,
/// one more for each step that the target is louder, and never below zero.
pub open spec fn louder_by(place: usize, to: u8, from: u8, equal: int) -> bool {
    &&& to - from + equal >= 0 ==> place - equal == to - from
    &&& to - from + equal < 0 ==> place == 0
}

/// What is filled after `n` high bands.
spec fn filled_so_far(h: HeaderModel, c: ChannelModel, s: HighState, n: int) -> bool {
    &&& s.copies.len() == n
    &&& s.high == first_high(h) + n
    &&& s.low == first_high(h) - 1 - if n < mirrored_bands(h) { n } else { mirrored_bands(h) }
    &&& forall|i: int| 0 <= i < n ==> copy_right(h, c, #[trigger] s.copies[i], i)
}

/// Whether a copy is the right one for high band `i`: it goes to that band, is
/// taken from its mirror image among the coded bands or from the last image
/// there is, and its scale is that of the band's group.
pub open spec fn copy_right(h: HeaderModel, c: ChannelModel, copy: BandCopy, i: int) -> bool {
    let group = i / (h.bands_per_hfr_group as int);
    let mirror = if i < mirrored_bands(h) { i } else { mirrored_bands(h) };
    &&& copy.to == first_high(h) + i
    &&& copy.from == first_high(h) - 1 - mirror
    &&& louder_by(
        copy.scale,
        c.scale_factors[128 - h.hfr_group_count + group],
        c.scale_factors[first_high(h) - 1 - mirror],
        63,
    )
}

/// The bands filled after `b` bands of group `g`.
spec fn reached(h: HeaderModel, g: int, b: int) -> int {
    let n = g * h.bands_per_hfr_group + b;
    if n < filled_bands(h) { n } else { filled_bands(h) }
}

/// A header with high bands to fill.
pub open spec fn has_high_bands(h: HeaderModel) -> bool {
    &&& header_wf(h)
    &&& h.bands_per_hfr_group > 0
    &&& first_high(h) <= h.total_band_count
}

proof fn bounds(h: HeaderModel)
    requires
        has_high_bands(h),
    ensures
        0 <= mirrored_bands(h),
        0 <= filled_bands(h) <= h.total_band_count - first_high(h),
        h.hfr_group_count * h.bands_per_hfr_group >= filled_bands(h),
        h.hfr_group_count + first_high(h) <= 128,
{
    let left = h.total_band_count - first_high(h);
    let b = h.bands_per_hfr_group as int;
    let g = h.hfr_group_count as int;
    assert(crate::acb::utf::wrap32(left) == left);
    assert(g == (left + b - 1) / b);
    assert(g * b >= left && g <= left && g >= 0) by (nonlinear_arith)
        requires
            g == (left + b - 1) / b,
            b >= 1,
            left >= 0,
    ;
    assert((g / 2) * b >= 0 && g * b >= 0) by (nonlinear_arith)
        requires
            b >= 1,
            g >= 0,
    ;
}

proof fn group_reached(h: HeaderModel, c: ChannelModel, s: HighState, g: int, b: nat)
    requires
        has_high_bands(h),
        c.scale_factors.len() == 128,
        0 <= g < h.hfr_group_count,
        b <= h.bands_per_hfr_group,
        filled_so_far(h, c, s, reached(h, g, 0)),
    ensures
        filled_so_far(h, c, group_filled(h, c, s, g, b), reached(h, g, b as int)),
    decreases b,
{
    bounds(h);
    if b > 0 {
        let m = (b - 1) as nat;
        let per = h.bands_per_hfr_group as int;
        let walk = if h.version <= 0x200 { h.hfr_group_count as int } else { h.hfr_group_count as int / 2 };
        group_reached(h, c, s, g, m);
        let was = group_filled(h, c, s, g, m);
        let now = group_filled(h, c, s, g, b);
        let n = g * per + m;
        assert(n >= 0) by (nonlinear_arith)
            requires
                n == g * per + m,
                g >= 0,
                per >= 1,
                m >= 0,
        ;
        if n < filled_bands(h) {
            assert(n / per == g && (n < walk * per <==> g < walk)) by (nonlinear_arith)
                requires
                    n == g * per + m,
                    0 <= m < per,
            ;
            assert(was.low >= 0);
            assert(was.high < h.total_band_count);
            assert(g < walk ==> n + 1 <= walk * per) by (nonlinear_arith)
                requires
                    n == g * per + m,
                    0 <= m < per,
            ;
            let copy = now.copies[n];
            assert(copy_right(h, c, copy, n));
            assert forall|i: int| 0 <= i < n + 1 implies copy_right(h, c, #[trigger] now.copies[i], i) by {
                if i < n {
                    assert(now.copies[i] == was.copies[i]);
                }
            }
        } else {
            assert(was.high >= h.total_band_count || was.low < 0);
        }
    }
}

proof fn groups_reached(h: HeaderModel, c: ChannelModel, g: nat)
    requires
        has_high_bands(h),
        c.scale_factors.len() == 128,
        g <= h.hfr_group_count,
    ensures
        filled_so_far(h, c, groups_filled(h, c, g), reached(h, g as int, 0)),
    decreases g,
{
    bounds(h);
    if g > 0 {
        let per = h.bands_per_hfr_group as int;
        groups_reached(h, c, (g - 1) as nat);
        group_reached(h, c, groups_filled(h, c, (g - 1) as nat), g - 1, per as nat);
        assert((g - 1) * per + per == g * per) by (nonlinear_arith);
    } else {
        assert(0 * h.bands_per_hfr_group == 0);
    }
}

/// High bands are filled one after the other from the first that is not coded.
/// Each is taken from its mirror image among the coded bands, or from the last
/// image there is, at the scale of its group: as loud as the image where the
/// two scales are equal, and louder or quieter with every step of the group's
/// scale. The last band that was filled is cleared.
pub proof fn high_bands_mirror_coded_ones(h: HeaderModel, c: ChannelModel)
    requires
        has_high_bands(h),
        c.channel_type != ChannelType::StereoSecondary,
        c.scale_factors.len() == 128,
    ensures
        ({
            let (copies, cleared) = high_copies(h, c);
            &&& copies.len() == filled_bands(h)
            &&& forall|i: int| 0 <= i < copies.len() ==> copy_right(h, c, #[trigger] copies[i], i)
            &&& first_high(h) + copies.len() > 0 ==> cleared == Some(
                (first_high(h) + copies.len() - 1) as usize,
            )
        }),
{
    bounds(h);
    groups_reached(h, c, h.hfr_group_count as nat);
}

/// Of two channels that differ in the scale of one group alone, the louder
/// group has the higher place in every one of its bands, by as many steps; all
/// else is filled alike.
pub proof fn louder_groups_fill_louder(h: HeaderModel, c: ChannelModel, g: int, louder: u8)
    requires
        has_high_bands(h),
        c.channel_type != ChannelType::StereoSecondary,
        c.scale_factors.len() == 128,
        0 <= g < h.hfr_group_count,
        c.scale_factors[128 - h.hfr_group_count + g] <= louder,
    ensures
        ({
            let at = 128 - h.hfr_group_count + g;
            let steps = louder - c.scale_factors[at];
            let d = ChannelModel { scale_factors: c.scale_factors.update(at, louder), ..c };
            let x = high_copies(h, c).0;
            let y = high_copies(h, d).0;
            &&& x.len() == y.len()
            &&& forall|i: int|
                #![trigger x[i], y[i]]
                0 <= i < x.len() ==> {
                    &&& x[i].to == y[i].to
                    &&& x[i].from == y[i].from
                    &&& i / (h.bands_per_hfr_group as int) != g ==> x[i] == y[i]
                    &&& i / (h.bands_per_hfr_group as int) == g ==> y[i].scale >= x[i].scale
                    &&& i / (h.bands_per_hfr_group as int) == g && x[i].scale > 0 ==> y[i].scale
                        == x[i].scale + steps
                    &&& i / (h.bands_per_hfr_group as int) == g && c.scale_factors[x[i].from as int]
                        == c.scale_factors[at] ==> x[i].scale == 63
                }
        }),
{
    let at = 128 - h.hfr_group_count + g;
    let d = ChannelModel { scale_factors: c.scale_factors.update(at, louder), ..c };
    let per = h.bands_per_hfr_group as int;
    bounds(h);
    high_bands_mirror_coded_ones(h, c);
    high_bands_mirror_coded_ones(h, d);
    let x = high_copies(h, c).0;
    let y = high_copies(h, d).0;
    assert forall|i: int| #![trigger x[i], y[i]] 0 <= i < x.len() implies {
        &&& x[i].to == y[i].to
        &&& x[i].from == y[i].from
        &&& i / per != g ==> x[i] == y[i]
        &&& i / per == g ==> y[i].scale >= x[i].scale
        &&& i / per == g && x[i].scale > 0 ==> y[i].scale == x[i].scale + louder
            - c.scale_factors[at]
        &&& i / per == g && c.scale_factors[x[i].from as int] == c.scale_factors[at]
            ==> x[i].scale == 63
    } by {
        assert(copy_right(h, c, x[i], i));
        assert(copy_right(h, d, y[i], i));
        assert(x[i].from < first_high(h));
        assert(d.scale_factors[x[i].from as int] == c.scale_factors[x[i].from as int]);
        assert(0 <= i / per < h.hfr_group_count) by (nonlinear_arith)
            requires
                0 <= i,
                i < h.hfr_group_count * per,
                per >= 1,
        ;
        if i / per != g {
            assert(d.scale_factors[128 - h.hfr_group_count + i / per]
                == c.scale_factors[128 - h.hfr_group_count + i / per]);
        }
    }
}

/// Every draw of the noise generator is the one before it times 214013 plus
/// 2531011, in 32 bits.
pub proof fn generator_steps(r: u32, n: nat)
    ensures
        random_after(r, 0) == r,
        random_after(r, n + 1) == (random_after(r, n) * 214_013 + 2_531_011) % 0x1_0000_0000,
{
}

/// Whether a copy fills a band without a resolution as a draw says: the low
/// fifteen bits of the draw, as a part of 32768, choose among the bands with a
/// resolution in the order of their list, and the place is 62 where the two
/// bands have one scale, and rises with the scale of the band to fill.
pub open spec fn noise_right(c: ChannelModel, copy: BandCopy, to: u8, draw: u32) -> bool {
    let chosen = 128 - c.valid_count + (draw as int % 32768 * c.valid_count) / 32768;
    &&& 128 - c.valid_count <= chosen < 128
    &&& copy.to == to
    &&& copy.from == c.noises[chosen]
    &&& louder_by(
        copy.scale,
        c.scale_factors[to as int],
        c.scale_factors[c.noises[chosen] as int],
        62,
    )
}

proof fn one_band_right(c: ChannelModel, r: u32, i: nat)
    requires
        c.valid_count > 0,
    ensures
        noise_right(c, noise_copy(c, r, i), c.noises[i as int], random_after(r, i + 1)),
{
    let part = random_after(r, i + 1) as int % 32768;
    let v = c.valid_count as int;
    assert(0 <= (part * v) / 32768 < v) by (nonlinear_arith)
        requires
            0 <= part < 32768,
            v > 0,
    ;
}

/// Bands without a resolution are filled with noise in files without a least
/// resolution, in channels that have bands of both kinds and, of a mid-side
/// pair, in the first channel alone. Each takes one draw.
pub proof fn noise_comes_from_coded_bands(h: HeaderModel, c: ChannelModel, r: u32)
    ensures
        ({
            let copies = noise_copies(h, c, r);
            let wanted = h.min_resolution == 0 && c.valid_count > 0 && c.noise_count > 0 && (
            h.ms_stereo == 0 || c.channel_type == ChannelType::StereoPrimary);
            &&& copies.len() == if wanted { c.noise_count } else { 0 }
            &&& forall|i: int|
                0 <= i < copies.len() ==> noise_right(
                    c,
                    #[trigger] copies[i],
                    c.noises[i],
                    random_after(r, (i + 1) as nat),
                )
        }),
{
    let copies = noise_copies(h, c, r);
    assert forall|i: int| 0 <= i < copies.len() implies noise_right(
        c,
        #[trigger] copies[i],
        c.noises[i],
        random_after(r, (i + 1) as nat),
    ) by {
        one_band_right(c, r, i as nat);
    }
}

} // verus!
