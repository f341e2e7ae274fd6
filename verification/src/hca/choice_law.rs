//! Which levels an encoder chooses for a frame.

use vstd::prelude::*;
use crate::hca::budget::{
    band_bits, band_noise, boundary_search, chosen_levels, encode_resolution, frame_bits,
    level_is_edge, level_of, noise_search, silenced, used_bits, with_header_lengths,
    with_resolutions,
};
use crate::hca::encoder::{EncodeModel, EncoderModel};

verus! {

/// The bisection for the boundary ends at an edge: one band more does not fit.
proof fn boundary_edge(
    e: EncoderModel,
    costs: Seq<[[u32; 16]; 128]>,
    level: int,
    low: int,
    high: int,
)
    requires
        0 <= low <= high <= 127,
        frame_bits(e, costs, level, low) <= 8 * e.frame_size,
        high < 127 ==> frame_bits(e, costs, level, high + 1) > 8 * e.frame_size,
    ensures
        ({
            let b = boundary_search(e, costs, level, low, high);
            &&& b < 0 || low <= b <= high
            &&& b < 0 ==> frame_bits(e, costs, level, 127) <= 8 * e.frame_size
            &&& b >= 0 ==> frame_bits(e, costs, level, b) <= 8 * e.frame_size
            &&& 0 <= b < 127 ==> frame_bits(e, costs, level, b + 1) > 8 * e.frame_size
        }),
    decreases high - low,
{
    if high - low > 1 {
        let mid = (low + high) / 2;
        if 8 * e.frame_size < frame_bits(e, costs, level, mid) {
            boundary_edge(e, costs, level, low, mid - 1);
        } else {
            boundary_edge(e, costs, level, mid, high);
        }
    }
}

/// The levels of a frame are as fine as fits: one level less takes more bits
/// than the frame has, and so does one more band with the lower level.
pub proof fn levels_are_edges(e: EncoderModel, costs: Seq<[[u32; 16]; 128]>)
    requires
        chosen_levels(e, costs).levels is Some,
    ensures
        ({
            let (level, boundary) = chosen_levels(e, costs).levels->Some_0;
            let s = noise_search(
                with_header_lengths(e),
                costs,
                e.bands.base + e.bands.stereo - 1,
            ).e;
            let room = 8 * s.frame_size;
            &&& 0 <= level < 255
            &&& 0 <= boundary <= 127
            &&& frame_bits(s, costs, level, boundary) <= room
            &&& level > 0 ==> frame_bits(s, costs, level - 1, 0) > room
            &&& level == 0 ==> boundary == 0
            &&& 0 < level && boundary < 127 ==> frame_bits(s, costs, level, boundary + 1) > room
        }),
{
    let highest = e.bands.base + e.bands.stereo - 1;
    let first = with_header_lengths(e);
    let s = noise_search(first, costs, highest);
    search_gives_level(first, costs, highest);
    level_is_edge(s.e, costs);
    let level = s.level->Some_0;
    if level > 0 {
        boundary_edge(s.e, costs, level, 0, 127);
    }
}

proof fn search_gives_level(e: EncoderModel, costs: Seq<[[u32; 16]; 128]>, highest: int)
    ensures
        ({
            let s = noise_search(e, costs, highest);
            s.level is Some ==> s.level->Some_0 >= 0 && s.level->Some_0 == level_of(s.e, costs)
        }),
    decreases highest,
{
    if level_of(e, costs) < 0 && highest - 2 >= 0 {
        search_gives_level(with_header_lengths(silenced(e, highest - 2)), costs, highest - 2);
    }
}

/// No band is silenced where a level fits as it is. Else the two highest coded
/// bands that still sound are silenced in all channels, and no others.
pub proof fn bands_are_silenced_from_above(
    e: EncoderModel,
    costs: Seq<[[u32; 16]; 128]>,
    highest: int,
    i: int,
    b: int,
)
    requires
        0 <= i < e.config.channels <= 16,
        0 <= b < 128,
    ensures
        level_of(e, costs) >= 0 ==> noise_search(e, costs, highest).e == e && noise_search(
            e,
            costs,
            highest,
        ).level == Some(level_of(e, costs)),
        level_of(e, costs) < 0 && highest < 2 ==> noise_search(e, costs, highest).level is None,
        level_of(e, costs) < 0 && highest >= 2 ==> noise_search(e, costs, highest) == noise_search(
            with_header_lengths(silenced(e, highest - 2)),
            costs,
            highest - 2,
        ),
        silenced(e, highest - 2).channel[i].scale_factors[b] == if b == highest || b == highest - 1 {
            0
        } else {
            e.channel[i].scale_factors[b]
        },
{
}

/// A frame takes 48 bits, what the channels' heads take, and the cost of every
/// coded band at its resolution.
pub proof fn bits_add_up(
    e: EncoderModel,
    costs: Seq<[[u32; 16]; 128]>,
    level: int,
    boundary: int,
    n: nat,
)
    requires
        0 < n,
    ensures
        used_bits(e.channel, costs, level, boundary, 0) == 48,
        used_bits(e.channel, costs, level, boundary, n) == used_bits(
            e.channel,
            costs,
            level,
            boundary,
            (n - 1) as nat,
        ) + e.channel[n - 1].header_length + band_bits(
            e.channel[n - 1],
            costs[n - 1],
            level,
            boundary,
            e.channel[n - 1].coded_count,
        ),
{
}

/// Bands below the boundary are coded one level finer than the others.
pub proof fn boundary_parts_bands(c: EncodeModel, level: int, boundary: int, b: int)
    requires
        0 <= b < c.coded_count <= 128,
    ensures
        ({
            let r = with_resolutions(c, level, boundary).resolutions[b];
            &&& b < boundary ==> r == encode_resolution(c.scale_factors[b], level - 1)
            &&& b >= boundary ==> r == encode_resolution(c.scale_factors[b], level)
            &&& band_noise(level, boundary, b) == if b < boundary { level - 1 } else { level }
        }),
{
}

} // verus!
