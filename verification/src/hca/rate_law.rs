//! What a bit rate means for an encoder.

use vstd::prelude::*;
use vstd::arithmetic::div_mod::lemma_fundamental_div_mod;
use crate::hca::decoder::{ceil_div, ChannelType};
use crate::hca::encoder::{
    at_least_one_rate, band_split, config_error, cutoff, high_rate, new_encoder, pcm_rate, rounded,
    HcaEncoderConfig, HcaEncoderError,
};

verus! {

/// Whether a number is a quotient, rounded to the nearest.
pub open spec fn nearest(q: int, a: int, b: int) -> bool {
    2 * (q * b) <= 2 * a + b < 2 * (q * b) + 2 * b
}

proof fn rounded_is_nearest(a: int, b: int)
    requires
        0 < b,
    ensures
        nearest(rounded(a, b), a, b),
{
    let q = rounded(a, b);
    lemma_fundamental_div_mod(2 * a + b, 2 * b);
    assert((2 * b) * q == 2 * (q * b)) by (nonlinear_arith);
}

proof fn rate_is_high(rate: int, pcm: int)
    requires
        0 < rate,
    ensures
        pcm / rate <= 6 <==> pcm < 7 * rate,
{
    let q = pcm / rate;
    lemma_fundamental_div_mod(pcm, rate);
    assert(q <= 6 ==> rate * q <= rate * 6) by (nonlinear_arith)
        requires
            0 < rate,
    ;
    assert(q >= 7 ==> rate * q >= rate * 7) by (nonlinear_arith)
        requires
            0 < rate,
    ;
}

/// A stream is coded at a high rate where it has one channel, or where its
/// samples take less than seven times its bit rate.
pub proof fn high_rates_tell(c: HcaEncoderConfig)
    requires
        c.bitrate > 0,
    ensures
        high_rate(c) <==> c.channels <= 1 || 16 * (c.sample_rate * c.channels) < 7 * c.bitrate,
{
    rate_is_high(c.bitrate as int, pcm_rate(c));
}

/// The bands of a stream. All lie below half of its sampling rate; the
/// cutoff frequency tells how many there are, and the bit rate how many of
/// them are coded. At a high rate there are no stereo bands, and else every
/// second coded band is one. Eight groups of high bands hold the rest.
pub proof fn bands_tell(c: HcaEncoderConfig)
    requires
        config_error(c) is None,
        c.bitrate > 0,
    ensures
        ({
            let b = band_split(c);
            let coded = b.base + b.stereo;
            let pcm = 16 * (c.sample_rate * c.channels);
            &&& 1 <= b.total <= 128
            &&& coded <= b.total
            &&& 0 <= 2 * cutoff(c) <= c.sample_rate
            &&& 1 < b.total < 128 ==> nearest(
                b.total as int,
                256 * cutoff(c),
                c.sample_rate as int,
            )
            &&& coded < b.total ==> nearest(
                coded,
                if high_rate(c) { 768 * c.bitrate } else { 1024 * c.bitrate },
                pcm,
            )
            &&& high_rate(c) ==> b.stereo == 0
            &&& !high_rate(c) ==> b.base == b.stereo || b.base == b.stereo + 1
            &&& b.total - coded <= 8 * b.per_group < b.total - coded + 8
        }),
{
    let rate = c.sample_rate as int;
    let pcm = pcm_rate(c);
    let bits = at_least_one_rate(c);
    assert(pcm == 16 * (c.sample_rate * c.channels)) by (nonlinear_arith)
        requires
            pcm == c.sample_rate * c.channels * 16,
    ;
    assert(pcm > 0) by (nonlinear_arith)
        requires
            pcm == 16 * (c.sample_rate * c.channels),
            c.sample_rate > 0,
            c.channels > 0,
    ;
    cutoff_positive(c);
    rounded_is_nearest(cutoff(c) * 256, rate);
    let ratio: int = if high_rate(c) { 6 } else { 8 };
    rounded_is_nearest(ratio * bits * 128, pcm);
    let start = rounded(ratio * bits * 128, pcm);
    assert(start >= 0) by (nonlinear_arith)
        requires
            nearest(start, ratio * bits * 128, pcm),
            ratio == 6 || ratio == 8,
            bits > 0,
            pcm > 0,
    ;
}

proof fn cutoff_positive(c: HcaEncoderConfig)
    requires
        config_error(c) is None,
        c.bitrate > 0,
    ensures
        0 <= 2 * cutoff(c) <= c.sample_rate,
{
    let ratio: int = if high_rate(c) { 12 } else { 16 };
    let bits = at_least_one_rate(c);
    let wide = 32 * c.channels;
    lemma_fundamental_div_mod(ratio * bits, wide);
    let limit = ratio * bits / wide;
    assert(limit >= 0) by (nonlinear_arith)
        requires
            limit == (ratio * bits) / wide,
            ratio * bits >= 0,
            wide > 0,
    ;
}

/// The highest coded frequency: half of the sampling rate where the bit rate
/// suffices, and else lower in proportion to the bit rate of a channel.
pub proof fn cutoff_tells(c: HcaEncoderConfig)
    requires
        config_error(c) is None,
        c.bitrate > 0,
    ensures
        ({
            let pcm = 16 * (c.sample_rate * c.channels);
            let half = c.sample_rate as int / 2;
            let low = if high_rate(c) {
                12 * c.bitrate / (32 * c.channels)
            } else {
                16 * c.bitrate / (32 * c.channels)
            };
            &&& high_rate(c) && 12 * c.bitrate >= pcm ==> cutoff(c) == half
            &&& !high_rate(c) && 16 * c.bitrate >= pcm ==> cutoff(c) == half
            &&& high_rate(c) && 12 * c.bitrate + 12 <= pcm ==> cutoff(c) == if low < half {
                low
            } else {
                half
            }
            &&& !high_rate(c) && 16 * c.bitrate + 16 <= pcm ==> cutoff(c) == if low < half {
                low
            } else {
                half
            }
        }),
{
    let pcm = pcm_rate(c);
    assert(pcm == 16 * (c.sample_rate * c.channels)) by (nonlinear_arith)
        requires
            pcm == c.sample_rate * c.channels * 16,
    ;
}

/// A new encoder keeps its configuration and pads nothing. Its channels code
/// the bands of the split: a second channel of a pair only the base bands.
/// Its groups of high bands hold all bands that are not coded, and none is
/// empty.
pub proof fn new_encoder_tells(c: HcaEncoderConfig, i: int)
    requires
        config_error(c) is None,
        c.bitrate > 0,
        0 <= i < c.channels,
    ensures
        ({
            let e = new_encoder(c);
            let b = e.bands;
            let ch = e.channel[i];
            let rest = b.total - b.base - b.stereo;
            &&& e.config == c && e.padding == 0
            &&& b == band_split(c)
            &&& e.channel.len() == 16
            &&& ch.coded_count == if ch.channel_type == ChannelType::StereoSecondary {
                b.base as int
            } else {
                b.base + b.stereo
            }
            &&& b.stereo == 0 ==> ch.channel_type == ChannelType::Discrete
            &&& c.channels == 1 ==> ch.channel_type == ChannelType::Discrete
            &&& b.per_group > 0 ==> rest <= e.hfr_group_count * b.per_group < rest + b.per_group
            &&& forall|x: int| 0 <= x < 256 ==> #[trigger] e.encrypt_table[x] == x
        }),
{
    bands_tell(c);
    let e = new_encoder(c);
    let b = e.bands;
    let rest = b.total - b.base - b.stereo;
    if b.per_group > 0 {
        let g = b.per_group as int;
        groups_cover(rest, g);
    }
}

pub(crate) proof fn groups_cover(rest: int, g: int)
    requires
        0 < g <= 128,
        0 <= rest <= 128,
    ensures
        ({
            let n = ceil_div(rest, g);
            &&& 0 <= n <= 128
            &&& rest <= n * g < rest + g
        }),
{
    let n = ceil_div(rest, g);
    lemma_fundamental_div_mod(rest + g - 1, g);
    assert(g * n == n * g) by (nonlinear_arith);
    assert(0 <= n <= 128) by (nonlinear_arith)
        requires
            rest - 1 < n * g <= rest + g - 1,
            0 < g,
            0 <= rest <= 128,
    ;
}

/// A configuration is refused for a sampling rate of zero or above 8388607, and
/// for no channel or more than eight, and for nothing else.
pub proof fn settings_are_checked(c: HcaEncoderConfig)
    ensures
        config_error(c) is None <==> 1 <= c.sample_rate <= 8_388_607 && 1 <= c.channels <= 8,
        !(1 <= c.sample_rate <= 8_388_607) ==> config_error(c) == Some(
            HcaEncoderError::InvalidSampleRate(c.sample_rate),
        ),
        1 <= c.sample_rate <= 8_388_607 && !(1 <= c.channels <= 8) ==> config_error(c) == Some(
            HcaEncoderError::InvalidChannelCount(c.channels),
        ),
{
}

} // verus!
