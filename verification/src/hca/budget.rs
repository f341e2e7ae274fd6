//! HCA encoder: resolutions within the bit budget of a frame.

use vstd::prelude::*;
use crate::hca::decoder::ChannelType;
use crate::hca::encoder::{
    clamped, encode_types, encoder_wf, same_encode_kind, ChannelEncodeState, EncodeModel,
    EncoderModel, HcaEncoder, HcaEncoderError,
};
use crate::hca::tables::{MAX_BIT_TABLE, QUANTIZE_SPECTRUM_BITS, SCALE_TO_RESOLUTION_CURVE};

verus! {

/// The bits that the eight values of a band take at each resolution, by
/// channel and band.
pub type BitCosts = Vec<[[u32; 16]; 128]>;

/// The bits of a value at a resolution.
pub open spec fn value_bits(resolution: u8, v: i32) -> nat {
    if resolution == 0 {
        0
    } else if resolution < 8 {
        QUANTIZE_SPECTRUM_BITS[resolution as int][clamped(v + 8, 0, 15)] as nat
    } else {
        (MAX_BIT_TABLE[resolution as int] - if v == 0 { 1int } else { 0 }) as nat
    }
}

/// The bits of the first `n` values of a band.
pub open spec fn values_bits(resolution: u8, values: Seq<i32>, n: nat) -> nat
    decreases n,
{
    if n == 0 {
        0
    } else {
        values_bits(resolution, values, (n - 1) as nat) + value_bits(resolution, values[n - 1])
    }
}

/// The bits that the eight values of a band take at a resolution.
pub fn band_cost(resolution: u8, values: &[i32; 8]) -> (r: u32)
    requires
        resolution <= 15,
    ensures
        r == values_bits(resolution, values@, 8),
        r <= 96,
{
    let mut sum: u32 = 0;
    let mut i: usize = 0;
    while i < 8
        invariant
            i <= 8,
            resolution <= 15,
            sum == values_bits(resolution, values@, i as nat),
            sum <= 12 * i,
        decreases 8 - i,
    {
        let v: i32 = values[i];
        let bits: u32 = if resolution == 0 {
            0
        } else if resolution < 8 {
            let index: usize = if v < -8 {
                0
            } else if v > 7 {
                15
            } else {
                (v + 8) as usize
            };
            proof {
                narrow_codes(resolution as int, index as int);
            }
            QUANTIZE_SPECTRUM_BITS[resolution as usize][index] as u32
        } else {
            proof {
                wide_codes(resolution as int);
            }
            let most: u32 = MAX_BIT_TABLE[resolution as usize] as u32;
            if v == 0 {
                most - 1
            } else {
                most
            }
        };
        sum = sum + bits;
        i += 1;
    }
    sum
}

proof fn narrow_codes(r: int, i: int)
    requires
        0 <= r < 8,
        0 <= i < 16,
    ensures
        QUANTIZE_SPECTRUM_BITS[r][i] <= 4,
{
    assert(r == 0 || r == 1 || r == 2 || r == 3 || r == 4 || r == 5 || r == 6 || r == 7);
    assert(i == 0 || i == 1 || i == 2 || i == 3 || i == 4 || i == 5 || i == 6 || i == 7 || i == 8
        || i == 9 || i == 10 || i == 11 || i == 12 || i == 13 || i == 14 || i == 15);
}

pub(crate) proof fn wide_codes(r: int)
    requires
        8 <= r < 16,
    ensures
        1 <= MAX_BIT_TABLE[r] <= 12,
{
    assert(r == 8 || r == 9 || r == 10 || r == 11 || r == 12 || r == 13 || r == 14 || r == 15);
}

/// Whether there are costs for every channel, none above what the widest codes
/// take.
pub open spec fn costs_wf(costs: Seq<[[u32; 16]; 128]>, channels: nat) -> bool {
    &&& costs.len() >= channels
    &&& forall|c: int, b: int, r: int|
        0 <= c < costs.len() && 0 <= b < 128 && 0 <= r < 16 ==> #[trigger] costs[c][b][r] <= 96
}

/// The resolution of a band from its scale factor and the noise level.
pub open spec fn encode_resolution(scale_factor: u8, noise: int) -> u8 {
    if scale_factor == 0 {
        0
    } else {
        clamped(
            SCALE_TO_RESOLUTION_CURVE[clamped(noise - (5 * scale_factor) / 2 + 2, 0, 58)] as int,
            1,
            15,
        ) as u8
    }
}

/// The resolution of a band from its scale factor and the noise level.
pub fn calculate_resolution(scale_factor: u8, noise_level: i32) -> (r: u8)
    ensures
        r == encode_resolution(scale_factor, noise_level as int),
        r <= 15,
{
    if scale_factor == 0 {
        return 0;
    }
    let raw: i64 = noise_level as i64 - (5 * scale_factor as i64) / 2 + 2;
    let at: i64 = if raw < 0 {
        0
    } else if raw > 58 {
        58
    } else {
        raw
    };
    let r: u8 = SCALE_TO_RESOLUTION_CURVE[at as usize];
    if r < 1 {
        1
    } else if r > 15 {
        15
    } else {
        r
    }
}

/// The greatest difference of scale factors that a width of differences holds.
pub open spec fn widest_delta(bits: nat) -> int {
    if bits <= 1 {
        0
    } else if bits == 2 {
        1
    } else if bits == 3 {
        3
    } else if bits == 4 {
        7
    } else {
        15
    }
}

/// Whether a band's scale factor is stored plain behind an escape.
pub open spec fn escaped(sf: Seq<u8>, band: int, bits: nat) -> bool {
    let d = sf[band] - sf[band - 1];
    d > widest_delta(bits) || d < -widest_delta(bits)
}

/// The bits of the first `n` scale factors stored by differences.
pub open spec fn delta_cost(sf: Seq<u8>, n: nat, bits: nat) -> nat
    decreases n,
{
    if n <= 1 {
        9
    } else {
        delta_cost(sf, (n - 1) as nat, bits) + bits + if escaped(sf, n - 1, bits) { 6nat } else { 0 }
    }
}

/// A width of differences and the bits that it takes.
pub struct DeltaChoice {
    pub bits: u8,
    pub length: nat,
}

/// The best width among plain storage and the first `k` widths; earlier ones
/// win.
pub open spec fn best_delta(sf: Seq<u8>, coded: nat, k: nat) -> DeltaChoice
    decreases k,
{
    if k == 0 {
        DeltaChoice { bits: 6, length: 3 + 6 * coded }
    } else {
        let best = best_delta(sf, coded, (k - 1) as nat);
        let length = delta_cost(sf, coded, k);
        if length < best.length { DeltaChoice { bits: k as u8, length } } else { best }
    }
}

/// Whether the first scale factors are all zero.
pub open spec fn all_zero(sf: Seq<u8>, coded: nat) -> bool {
    forall|i: int| 0 <= i < coded ==> #[trigger] sf[i] == 0
}

/// How the scale factors of a channel are stored: not at all where they are
/// all zero, else in the fewest bits.
pub open spec fn delta_choice(sf: Seq<u8>, coded: nat) -> DeltaChoice {
    if all_zero(sf, coded) {
        DeltaChoice { bits: 0, length: 3 }
    } else {
        best_delta(sf, coded, 5)
    }
}

/// A channel with the way its scale factors are stored and the bits before its
/// values.
pub open spec fn with_header_length(c: EncodeModel, groups: nat) -> EncodeModel {
    let choice = delta_choice(c.scale_factors, c.coded_count);
    EncodeModel {
        delta_bits: choice.bits,
        header_length: choice.length + if c.channel_type == ChannelType::StereoSecondary {
            32
        } else {
            6 * groups
        },
        ..c
    }
}

/// The encoder with the header lengths of its channels.
pub open spec fn with_header_lengths(e: EncoderModel) -> EncoderModel {
    EncoderModel {
        channel: Seq::new(
            16,
            |i: int|
                if i < e.config.channels {
                    with_header_length(e.channel[i], e.hfr_group_count as nat)
                } else {
                    e.channel[i]
                },
        ),
        ..e
    }
}

/// The noise level of a band: one less below the boundary.
pub open spec fn band_noise(level: int, boundary: int, band: int) -> int {
    if band < boundary { level - 1 } else { level }
}

/// The bits of the values of a channel's first `n` bands.
pub open spec fn band_bits(
    c: EncodeModel,
    costs: [[u32; 16]; 128],
    level: int,
    boundary: int,
    n: nat,
) -> nat
    decreases n,
{
    if n == 0 {
        0
    } else {
        let b = n - 1;
        let r = encode_resolution(c.scale_factors[b], band_noise(level, boundary, b));
        band_bits(c, costs, level, boundary, b as nat) + costs[b][r as int] as nat
    }
}

/// The bits of a frame with its first `n` channels.
pub open spec fn used_bits(
    chs: Seq<EncodeModel>,
    costs: Seq<[[u32; 16]; 128]>,
    level: int,
    boundary: int,
    n: nat,
) -> nat
    decreases n,
{
    if n == 0 {
        48
    } else {
        let c = chs[n - 1];
        used_bits(chs, costs, level, boundary, (n - 1) as nat) + c.header_length + band_bits(
            c,
            costs[n - 1],
            level,
            boundary,
            c.coded_count,
        )
    }
}

/// The bits of a whole frame.
pub open spec fn frame_bits(
    e: EncoderModel,
    costs: Seq<[[u32; 16]; 128]>,
    level: int,
    boundary: int,
) -> nat {
    used_bits(e.channel, costs, level, boundary, e.config.channels as nat)
}

/// The bisection for the noise level: between `low` and `high`, with the bits
/// of the last level tried.
pub open spec fn level_search(
    e: EncoderModel,
    costs: Seq<[[u32; 16]; 128]>,
    low: int,
    high: int,
    last: nat,
) -> (int, nat)
    decreases high - low,
{
    if low >= high {
        (low, last)
    } else {
        let mid = (low + high) / 2;
        let bits = frame_bits(e, costs, mid, 0);
        if bits > 8 * e.frame_size {
            level_search(e, costs, mid + 1, high, bits)
        } else {
            level_search(e, costs, low, mid, bits)
        }
    }
}

/// The noise level that the bisection finds, or -1 where even the highest is
/// too low.
pub open spec fn level_of(e: EncoderModel, costs: Seq<[[u32; 16]; 128]>) -> int {
    let (level, last) = level_search(e, costs, 0, 255, 0);
    if level == 255 && last > 8 * e.frame_size { -1 } else { level }
}

/// The encoder with two bands of every channel silenced.
pub open spec fn silenced(e: EncoderModel, highest: int) -> EncoderModel {
    EncoderModel {
        channel: Seq::new(
            16,
            |i: int|
                if i < e.config.channels {
                    EncodeModel {
                        scale_factors: Seq::new(
                            128,
                            |b: int|
                                if highest < b <= highest + 2 {
                                    0
                                } else {
                                    e.channel[i].scale_factors[b]
                                },
                        ),
                        ..e.channel[i]
                    }
                } else {
                    e.channel[i]
                },
        ),
        ..e
    }
}

/// The search for a noise level: the level where there is one, and the encoder
/// with the bands that had to be silenced for it.
pub struct NoiseSearch {
    pub level: Option<int>,
    pub e: EncoderModel,
}

/// Looks for a noise level, silencing two more bands from the top each time
/// there is none.
pub open spec fn noise_search(
    e: EncoderModel,
    costs: Seq<[[u32; 16]; 128]>,
    highest: int,
) -> NoiseSearch
    decreases highest,
{
    let level = level_of(e, costs);
    if level >= 0 {
        NoiseSearch { level: Some(level), e }
    } else if highest - 2 < 0 {
        NoiseSearch { level: None, e }
    } else {
        noise_search(with_header_lengths(silenced(e, highest - 2)), costs, highest - 2)
    }
}

/// The bisection for the boundary between `low` and `high`.
pub open spec fn boundary_search(
    e: EncoderModel,
    costs: Seq<[[u32; 16]; 128]>,
    level: int,
    low: int,
    high: int,
) -> int
    decreases high - low,
{
    if high - low <= 1 {
        if low >= high {
            if low < 127 { low } else { -1 }
        } else if frame_bits(e, costs, level, high) > 8 * e.frame_size {
            low
        } else {
            high
        }
    } else {
        let mid = (low + high) / 2;
        if 8 * e.frame_size < frame_bits(e, costs, level, mid) {
            boundary_search(e, costs, level, low, mid - 1)
        } else {
            boundary_search(e, costs, level, mid, high)
        }
    }
}

/// A channel with the resolutions of its bands; bands that are not coded have
/// none.
pub open spec fn with_resolutions(c: EncodeModel, level: int, boundary: int) -> EncodeModel {
    EncodeModel {
        resolutions: Seq::new(
            128,
            |b: int|
                if b < c.coded_count {
                    encode_resolution(c.scale_factors[b], band_noise(level, boundary, b))
                } else {
                    0
                },
        ),
        ..c
    }
}

/// The encoder with the resolutions of all bands.
pub open spec fn with_all_resolutions(e: EncoderModel, level: int, boundary: int) -> EncoderModel {
    EncoderModel {
        channel: Seq::new(
            16,
            |i: int|
                if i < e.config.channels {
                    with_resolutions(e.channel[i], level, boundary)
                } else {
                    e.channel[i]
                },
        ),
        ..e
    }
}

/// What choosing the levels of a frame gives: the levels where they fit, and
/// the encoder afterwards.
pub struct LevelChoice {
    pub levels: Option<(int, int)>,
    pub e: EncoderModel,
}

/// The noise level and the boundary of a frame, and its resolutions.
pub open spec fn chosen_levels(e: EncoderModel, costs: Seq<[[u32; 16]; 128]>) -> LevelChoice {
    let highest = e.bands.base + e.bands.stereo - 1;
    let s = noise_search(with_header_lengths(e), costs, highest);
    match s.level {
        None => LevelChoice { levels: None, e: s.e },
        Some(level) => {
            let boundary = if level == 0 { 0 } else { boundary_search(s.e, costs, level, 0, 127) };
            if boundary < 0 {
                LevelChoice { levels: None, e: s.e }
            } else {
                LevelChoice {
                    levels: Some((level, boundary)),
                    e: with_all_resolutions(s.e, level, boundary),
                }
            }
        },
    }
}

/// Whether the coded bands of all channels lie within a frame's bands and the
/// header lengths are small.
pub open spec fn lengths_small(e: EncoderModel) -> bool {
    forall|i: int|
        0 <= i < e.config.channels ==> (#[trigger] e.channel[i]).header_length <= 2000
            && e.channel[i].coded_count <= 128
}

/// Chooses how the scale factors of a channel are stored.
fn optimal_delta_length(channel: &ChannelEncodeState) -> (r: (u8, usize))
    requires
        channel.coded_count <= 128,
    ensures
        ({
            let choice = delta_choice(channel@.scale_factors, channel@.coded_count);
            r.0 == choice.bits && r.1 == choice.length
        }),
        r.1 <= 1500,
{
    let ghost sf = channel.scale_factors@;
    let coded: usize = channel.coded_count;
    let mut i: usize = 0;
    let mut empty: bool = true;
    while i < coded
        invariant
            i <= coded <= 128,
            sf == channel.scale_factors@,
            empty == all_zero(sf, i as nat),
        decreases coded - i,
    {
        if channel.scale_factors[i] != 0 {
            empty = false;
        }
        assert(empty == all_zero(sf, (i + 1) as nat)) by {
            if all_zero(sf, (i + 1) as nat) {
                assert(sf[i as int] == 0);
            }
        }
        i += 1;
    }
    if empty {
        return (0, 3);
    }
    let mut best_bits: u8 = 6;
    let mut best_length: usize = 3 + 6 * coded;
    let mut bits: usize = 1;
    while bits < 6
        invariant
            1 <= bits <= 6,
            coded == channel.coded_count,
            coded <= 128,
            sf == channel.scale_factors@,
            ({
                let b = best_delta(sf, coded as nat, (bits - 1) as nat);
                b.bits == best_bits && b.length == best_length
            }),
            best_length <= 1500,
        decreases 6 - bits,
    {
        let widest: i32 = match bits {
            1 => 0,
            2 => 1,
            3 => 3,
            4 => 7,
            _ => 15,
        };
        let mut length: usize = 9;
        let mut band: usize = 1;
        while band < coded
            invariant
                1 <= band,
                band <= coded || coded <= 1,
                coded <= 128,
                1 <= bits <= 5,
                widest == widest_delta(bits as nat),
                sf == channel.scale_factors@,
                coded <= 1 ==> band == 1,
                length == delta_cost(sf, band as nat, bits as nat),
                length <= 9 + 11 * band,
            decreases coded - band,
        {
            let delta: i32 = channel.scale_factors[band] as i32 - channel.scale_factors[band
                - 1] as i32;
            length = length + bits;
            if delta > widest || delta < -widest {
                length = length + 6;
            }
            band += 1;
        }
        assert(length == delta_cost(sf, coded as nat, bits as nat));
        if length < best_length {
            best_length = length;
            best_bits = bits as u8;
        }
        bits += 1;
    }
    (best_bits, best_length)
}

impl HcaEncoder {
    /// Whether two encoders agree in all but the contents of their channels.
    pub open spec fn settings_kept(&self, other: &HcaEncoder) -> bool {
        &&& self@ == (EncoderModel { channel: self@.channel, ..other@ })
        &&& self.track_count == other.track_count
        &&& self.encoder_delay == other.encoder_delay
        &&& self.hfr_band_count == other.hfr_band_count
    }

    /// Works out the header lengths of all channels.
    fn calculate_frame_header_length(&mut self)
        requires
            old(self).wf(),
        ensures
            final(self)@ == with_header_lengths(old(self)@),
            final(self).wf(),
            final(self).settings_kept(old(self)),
            lengths_small(final(self)@),
    {
        let ghost e = self@;
        let n: usize = self.config.channels as usize;
        let groups: usize = self.hfr_group_count as usize;
        let mut i: usize = 0;
        while i < n
            invariant
                i <= n == e.config.channels,
                n <= 8,
                groups == e.hfr_group_count,
                groups <= 8,
                e == old(self)@,
                encoder_wf(e),
                self.settings_kept(old(self)),
                self@.channel =~= Seq::new(
                    16,
                    |j: int|
                        if j < i {
                            with_header_length(e.channel[j], groups as nat)
                        } else {
                            e.channel[j]
                        },
                ),
                forall|j: int|
                    0 <= j < i ==> (#[trigger] self@.channel[j]).header_length <= 2000
                        && self@.channel[j].coded_count <= 128,
            decreases n - i,
        {
            let ghost was = self@.channel;
            assert(was[i as int] == self.channel@[i as int]@);
            assert(was[i as int] == e.channel[i as int]);
            assert(same_encode_kind(
                e.channel[i as int],
                encode_types(e.config.channels as nat, e.bands.stereo, e.channel_config)[i as int],
                e.bands,
            ));
            let (bits, length) = optimal_delta_length(&self.channel[i]);
            let side: usize = if self.channel[i].channel_type == ChannelType::StereoSecondary {
                32
            } else {
                6 * groups
            };
            self.channel[i].scale_factor_delta_bits = bits;
            self.channel[i].header_length_bits = length + side;
            assert(self@.channel =~= was.update(
                i as int,
                with_header_length(was[i as int], groups as nat),
            ));
            i += 1;
        }
        assert(self@.channel =~= with_header_lengths(e).channel);
        assert(self@ == with_header_lengths(e));
        proof {
            kinds_kept(e, self@);
        }
    }

    /// The bits of a frame at a noise level and boundary.
    fn calculate_used_bits(&self, costs: &BitCosts, noise_level: i32, eval_boundary: i32) -> (r: usize)
        requires
            self.wf(),
            lengths_small(self@),
            costs_wf(costs@, self@.config.channels as nat),
            0 <= noise_level <= 255,
            0 <= eval_boundary <= 127,
        ensures
            r == frame_bits(self@, costs@, noise_level as int, eval_boundary as int),
    {
        let ghost e = self@;
        let n: usize = self.config.channels as usize;
        let mut length: usize = 48;
        let mut i: usize = 0;
        while i < n
            invariant
                i <= n == e.config.channels,
                n <= 8,
                e == self@,
                lengths_small(e),
                costs_wf(costs@, n as nat),
                0 <= noise_level <= 255,
                0 <= eval_boundary <= 127,
                length == used_bits(
                    e.channel,
                    costs@,
                    noise_level as int,
                    eval_boundary as int,
                    i as nat,
                ),
                length <= 48 + 20000 * i,
            decreases n - i,
        {
            let ghost c = e.channel[i as int];
            assert(c == self.channel@[i as int]@);
            length = length + self.channel[i].header_length_bits;
            let coded: usize = self.channel[i].coded_count;
            let ghost before = length;
            let mut band: usize = 0;
            while band < coded
                invariant
                    band <= coded <= 128,
                    i < n,
                    n <= 8,
                    c == self.channel@[i as int]@,
                    coded == c.coded_count,
                    costs_wf(costs@, n as nat),
                    0 <= noise_level <= 255,
                    0 <= eval_boundary <= 127,
                    length == before + band_bits(
                        c,
                        costs@[i as int],
                        noise_level as int,
                        eval_boundary as int,
                        band as nat,
                    ),
                    length <= before + 96 * band,
                    before <= 0x10_0000,
                decreases coded - band,
            {
                let noise: i32 = if (band as i32) < eval_boundary {
                    noise_level - 1
                } else {
                    noise_level
                };
                let resolution: u8 = calculate_resolution(
                    self.channel[i].scale_factors[band],
                    noise,
                );
                assert(costs@[i as int][band as int][resolution as int] <= 96);
                length = length + costs[i][band][resolution as usize] as usize;
                band += 1;
            }
            i += 1;
        }
        length
    }

    /// Bisects for the noise level.
    fn binary_search_level(&self, costs: &BitCosts) -> (r: i32)
        requires
            self.wf(),
            lengths_small(self@),
            costs_wf(costs@, self@.config.channels as nat),
        ensures
            r == level_of(self@, costs@),
            -1 <= r <= 255,
    {
        let ghost e = self@;
        let available: usize = self.frame_size as usize * 8;
        let mut low: i32 = 0;
        let mut high: i32 = 255;
        let mut mid_value: usize = 0;
        while low != high
            invariant
                e == self@,
                self.wf(),
                lengths_small(e),
                costs_wf(costs@, e.config.channels as nat),
                available == 8 * e.frame_size,
                0 <= low <= high <= 255,
                level_search(e, costs@, 0, 255, 0) == level_search(
                    e,
                    costs@,
                    low as int,
                    high as int,
                    mid_value as nat,
                ),
            decreases high - low,
        {
            let mid: i32 = (low + high) / 2;
            mid_value = self.calculate_used_bits(costs, mid, 0);
            if mid_value > available {
                low = mid + 1;
            } else {
                high = mid;
            }
        }
        if low == 255 && mid_value > available {
            -1
        } else {
            low
        }
    }

    /// Looks for a noise level, silencing two more bands from the top each
    /// time there is none.
    fn calculate_noise_level(&mut self, costs: &BitCosts) -> (r: Result<u32, HcaEncoderError>)
        requires
            old(self).wf(),
            lengths_small(old(self)@),
            costs_wf(costs@, old(self)@.config.channels as nat),
        ensures
            ({
                let e = old(self)@;
                let s = noise_search(e, costs@, e.bands.base + e.bands.stereo - 1);
                &&& final(self)@ == s.e
                &&& match s.level {
                    Some(l) => r == Ok::<u32, HcaEncoderError>(l as u32) && 0 <= l <= 255,
                    None => r == Err::<u32, HcaEncoderError>(HcaEncoderError::FrameTooLarge),
                }
            }),
            final(self).wf(),
            final(self).settings_kept(old(self)),
            lengths_small(final(self)@),
    {
        let ghost start = noise_search(
            self@,
            costs@,
            self@.bands.base + self@.bands.stereo - 1,
        );
        let mut highest: i32 = (self.base_band_count + self.stereo_band_count) as i32 - 1;
        let mut level: i32 = self.binary_search_level(costs);
        while level < 0
            invariant
                self.wf(),
                self.settings_kept(old(self)),
                lengths_small(self@),
                costs_wf(costs@, self@.config.channels as nat),
                -1 <= highest <= 127,
                level == level_of(self@, costs@),
                -1 <= level <= 255,
                start == noise_search(self@, costs@, highest as int),
                start == noise_search(
                    old(self)@,
                    costs@,
                    old(self)@.bands.base + old(self)@.bands.stereo - 1,
                ),
            decreases highest,
        {
            highest = highest - 2;
            if highest < 0 {
                return Err(HcaEncoderError::FrameTooLarge);
            }
            self.silence_bands(highest as usize);
            self.calculate_frame_header_length();
            level = self.binary_search_level(costs);
        }
        Ok(level as u32)
    }

    /// Silences two bands of every channel.
    fn silence_bands(&mut self, highest: usize)
        requires
            old(self).wf(),
            highest < 128,
        ensures
            final(self)@ == silenced(old(self)@, highest as int),
            final(self).wf(),
            final(self).settings_kept(old(self)),
    {
        let ghost e = self@;
        let n: usize = self.config.channels as usize;
        let mut i: usize = 0;
        while i < n
            invariant
                i <= n == e.config.channels,
                n <= 8,
                highest < 128,
                e == old(self)@,
                encoder_wf(e),
                self.settings_kept(old(self)),
                self@.channel =~= Seq::new(
                    16,
                    |j: int|
                        if j < i {
                            silenced(e, highest as int).channel[j]
                        } else {
                            e.channel[j]
                        },
                ),
            decreases n - i,
        {
            let ghost was = self@.channel;
            let ghost c = was[i as int];
            assert(c == self.channel@[i as int]@);
            assert(c == e.channel[i as int]);
            if highest + 1 < 128 {
                self.channel[i].scale_factors[highest + 1] = 0;
            }
            if highest + 2 < 128 {
                self.channel[i].scale_factors[highest + 2] = 0;
            }
            proof {
                let now = self.channel@[i as int]@;
                let want = silenced(e, highest as int).channel[i as int];
                assert(now.scale_factors =~= want.scale_factors);
                assert(self@.channel =~= was.update(i as int, want));
            }
            i += 1;
        }
        assert(self@.channel =~= silenced(e, highest as int).channel);
        proof {
            kinds_kept(e, self@);
        }
    }

    /// Bisects for the boundary.
    fn binary_search_boundary(&self, costs: &BitCosts, noise_level: i32) -> (r: i32)
        requires
            self.wf(),
            lengths_small(self@),
            costs_wf(costs@, self@.config.channels as nat),
            0 <= noise_level <= 255,
        ensures
            r == boundary_search(self@, costs@, noise_level as int, 0, 127),
            -1 <= r <= 127,
    {
        let ghost e = self@;
        let available: usize = self.frame_size as usize * 8;
        let mut low: i32 = 0;
        let mut high: i32 = 127;
        while high - low > 1
            invariant
                e == self@,
                self.wf(),
                lengths_small(e),
                costs_wf(costs@, e.config.channels as nat),
                available == 8 * e.frame_size,
                0 <= noise_level <= 255,
                0 <= low <= high <= 127,
                boundary_search(e, costs@, noise_level as int, 0, 127) == boundary_search(
                    e,
                    costs@,
                    noise_level as int,
                    low as int,
                    high as int,
                ),
            decreases high - low,
        {
            let mid: i32 = (low + high) / 2;
            let mid_value: usize = self.calculate_used_bits(costs, noise_level, mid);
            if available < mid_value {
                high = mid - 1;
            } else {
                low = mid;
            }
        }
        if low == high {
            return if low < 127 {
                low
            } else {
                -1
            };
        }
        let high_value: usize = self.calculate_used_bits(costs, noise_level, high);
        if high_value > available {
            low
        } else {
            high
        }
    }

    /// Works out the resolutions of all bands.
    fn calculate_frame_resolutions(&mut self, noise_level: u32, evaluation_boundary: u32)
        requires
            old(self).wf(),
            noise_level <= 255,
            evaluation_boundary <= 127,
            noise_level == 0 ==> evaluation_boundary == 0,
        ensures
            final(self)@ == with_all_resolutions(
                old(self)@,
                noise_level as int,
                evaluation_boundary as int,
            ),
            final(self).wf(),
            final(self).settings_kept(old(self)),
    {
        let ghost e = self@;
        let n: usize = self.config.channels as usize;
        let mut i: usize = 0;
        while i < n
            invariant
                i <= n == e.config.channels,
                n <= 8,
                noise_level <= 255,
                evaluation_boundary <= 127,
                noise_level == 0 ==> evaluation_boundary == 0,
                e == old(self)@,
                encoder_wf(e),
                self.settings_kept(old(self)),
                self@.channel =~= Seq::new(
                    16,
                    |j: int|
                        if j < i {
                            with_resolutions(
                                e.channel[j],
                                noise_level as int,
                                evaluation_boundary as int,
                            )
                        } else {
                            e.channel[j]
                        },
                ),
            decreases n - i,
        {
            let ghost was = self@.channel;
            let ghost c = was[i as int];
            assert(c == self.channel@[i as int]@);
            assert(c == e.channel[i as int]);
            assert(same_encode_kind(
                e.channel[i as int],
                encode_types(e.config.channels as nat, e.bands.stereo, e.channel_config)[i as int],
                e.bands,
            ));
            let ghost want = with_resolutions(c, noise_level as int, evaluation_boundary as int);
            let coded: usize = self.channel[i].coded_count;
            let mut res: [u8; 128] = [0; 128];
            let mut band: usize = 0;
            while band < coded
                invariant
                    band <= coded <= 128,
                    i < n,
                    n <= 8,
                    noise_level <= 255,
                    evaluation_boundary <= 127,
                    noise_level == 0 ==> evaluation_boundary == 0,
                    c == self.channel@[i as int]@,
                    coded == c.coded_count,
                    want == with_resolutions(c, noise_level as int, evaluation_boundary as int),
                    res@.len() == 128,
                    forall|b: int| 0 <= b < band ==> #[trigger] res@[b] == want.resolutions[b],
                    forall|b: int| band <= b < 128 ==> #[trigger] res@[b] == 0,
                decreases coded - band,
            {
                let noise: u32 = if band < evaluation_boundary as usize {
                    noise_level - 1
                } else {
                    noise_level
                };
                res[band] = calculate_resolution(self.channel[i].scale_factors[band], noise as i32);
                band += 1;
            }
            assert(res@ =~= want.resolutions);
            self.channel[i].resolutions = res;
            assert(self@.channel =~= was.update(i as int, want));
            i += 1;
        }
        assert(self@.channel =~= with_all_resolutions(
            e,
            noise_level as int,
            evaluation_boundary as int,
        ).channel);
        proof {
            kinds_kept(e, self@);
        }
    }

    /// Chooses the noise level and the boundary of a frame from the scale
    /// factors and the cost of each band at each resolution, and works out the
    /// resolutions. Bands are silenced from the top where no level fits.
    pub fn choose_levels(&mut self, costs: &BitCosts) -> (r: Result<(u32, u32), HcaEncoderError>)
        requires
            old(self).wf(),
            costs_wf(costs@, old(self)@.config.channels as nat),
        ensures
            final(self).wf(),
            ({
                let c = chosen_levels(old(self)@, costs@);
                &&& final(self)@ == c.e
                &&& match c.levels {
                    Some((level, boundary)) => r == Ok::<(u32, u32), HcaEncoderError>(
                        (level as u32, boundary as u32),
                    ) && 0 <= level <= 255 && 0 <= boundary <= 127,
                    None => r == Err::<(u32, u32), HcaEncoderError>(HcaEncoderError::FrameTooLarge),
                }
            }),
    {
        self.calculate_frame_header_length();
        let level: u32 = self.calculate_noise_level(costs)?;
        let mut boundary: i32 = 0;
        if level != 0 {
            boundary = self.binary_search_boundary(costs, level as i32);
            if boundary < 0 {
                return Err(HcaEncoderError::FrameTooLarge);
            }
        }
        self.calculate_frame_resolutions(level, boundary as u32);
        Ok((level, boundary as u32))
    }
}

/// Changes that keep the types and coded bands of the channels keep an encoder
/// well formed.
proof fn kinds_kept(a: EncoderModel, b: EncoderModel)
    requires
        encoder_wf(a),
        b == (EncoderModel { channel: b.channel, ..a }),
        b.channel.len() == 16,
        forall|i: int|
            0 <= i < a.config.channels ==> (#[trigger] b.channel[i]).channel_type
                == a.channel[i].channel_type && b.channel[i].coded_count == a.channel[i].coded_count,
    ensures
        encoder_wf(b),
{
    assert forall|i: int| 0 <= i < b.config.channels implies same_encode_kind(
        #[trigger] b.channel[i],
        encode_types(b.config.channels as nat, b.bands.stereo, b.channel_config)[i],
        b.bands,
    ) by {
        assert(same_encode_kind(
            a.channel[i],
            encode_types(a.config.channels as nat, a.bands.stereo, a.channel_config)[i],
            a.bands,
        ));
    }
}

/// Where the bisection stops, the frame fits at the level found and did not at
/// the level before it.
pub proof fn level_is_edge(e: EncoderModel, costs: Seq<[[u32; 16]; 128]>)
    ensures
        level_of(e, costs) >= 0 ==> {
            let l = level_of(e, costs);
            &&& l < 255
            &&& frame_bits(e, costs, l, 0) <= 8 * e.frame_size
            &&& l > 0 ==> frame_bits(e, costs, l - 1, 0) > 8 * e.frame_size
        },
        level_of(e, costs) < 0 ==> frame_bits(e, costs, 254, 0) > 8 * e.frame_size,
{
    level_edge(e, costs, 0, 255, 0);
}

proof fn level_edge(e: EncoderModel, costs: Seq<[[u32; 16]; 128]>, low: int, high: int, last: nat)
    requires
        0 <= low <= high <= 255,
        low > 0 ==> frame_bits(e, costs, low - 1, 0) > 8 * e.frame_size,
        high < 255 ==> frame_bits(e, costs, high, 0) <= 8 * e.frame_size,
        low == 255 ==> last > 8 * e.frame_size,
    ensures
        ({
            let (l, t) = level_search(e, costs, low, high, last);
            &&& 0 <= l <= 255
            &&& l > 0 ==> frame_bits(e, costs, l - 1, 0) > 8 * e.frame_size
            &&& l < 255 ==> frame_bits(e, costs, l, 0) <= 8 * e.frame_size
            &&& l == 255 ==> t > 8 * e.frame_size
        }),
    decreases high - low,
{
    if low < high {
        let mid = (low + high) / 2;
        let bits = frame_bits(e, costs, mid, 0);
        if bits > 8 * e.frame_size {
            level_edge(e, costs, mid + 1, high, bits);
        } else {
            level_edge(e, costs, low, mid, bits);
        }
    }
}

} // verus!
