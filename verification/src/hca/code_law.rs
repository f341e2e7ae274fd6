//! What codes, resolutions, channels, keys and places in a stream mean.

use vstd::prelude::*;
use crate::hca::decoder::{
    channel_types, types_of, with_track, ChannelType, HeaderModel,
};
use crate::hca::hca_file::{effective_key, keep_range};
use crate::hca::tables::{INVERT_TABLE, MAX_BIT_TABLE};
use crate::hca::unpack::{code_value, resolution_of, used_bits};

verus! {

/// The bits that tell `2 * r + 1` values apart.
pub open spec fn code_width(r: int) -> int {
    if r == 1 {
        2
    } else if r <= 3 {
        3
    } else {
        4
    }
}

/// The codes of a width.
pub open spec fn code_room(r: int) -> int {
    if r == 1 {
        4
    } else if r <= 3 {
        8
    } else {
        16
    }
}

/// The small resolutions code the values from `-r` to `r`, in the order zero,
/// one, minus one, two, minus two and so on, with as few bits as tell them
/// apart: what is left of the codes goes to the first values, which take one
/// bit less.
pub proof fn small_codes_count_up(r: int, code: nat)
    requires
        1 <= r <= 7,
        code < code_room(r),
    ensures
        ({
            let short = 2 * (code_room(r) - (2 * r + 1));
            let k = if code < short { code as int / 2 } else { code - short / 2 };
            &&& MAX_BIT_TABLE[r] == code_width(r)
            &&& used_bits(r, code) == if code < short { code_width(r) - 1 } else { code_width(r) }
            &&& 0 <= k <= 2 * r
            &&& code_value(r, code) == if k % 2 == 1 { (k + 1) / 2 } else { -(k / 2) }
        }),
{
    if r == 1 {
        small_codes(1, code);
    } else if r == 2 {
        small_codes(2, code);
    } else if r == 3 {
        small_codes(3, code);
    } else if r == 4 {
        small_codes(4, code);
    } else if r == 5 {
        small_codes(5, code);
    } else if r == 6 {
        small_codes(6, code);
    } else {
        small_codes(7, code);
    }
}

proof fn small_codes(r: int, code: nat)
    requires
        r == 1 || r == 2 || r == 3 || r == 4 || r == 5 || r == 6 || r == 7,
        code < code_room(r),
    ensures
        ({
            let short = 2 * (code_room(r) - (2 * r + 1));
            let k = if code < short { code as int / 2 } else { code - short / 2 };
            &&& MAX_BIT_TABLE[r] == code_width(r)
            &&& used_bits(r, code) == if code < short { code_width(r) - 1 } else { code_width(r) }
            &&& 0 <= k <= 2 * r
            &&& code_value(r, code) == if k % 2 == 1 { (k + 1) / 2 } else { -(k / 2) }
        }),
{
    assert(code == 0 || code == 1 || code == 2 || code == 3 || code == 4 || code == 5 || code == 6
        || code == 7 || code == 8 || code == 9 || code == 10 || code == 11 || code == 12 || code
        == 13 || code == 14 || code == 15);
}

/// The large resolutions code a size of `r - 4` bits and, but for zero, a sign
/// behind it, which is set for values below zero.
pub proof fn large_codes_are_signed(r: int, code: nat)
    requires
        8 <= r <= 15,
    ensures
        MAX_BIT_TABLE[r] == r - 3,
        code < 2 ==> used_bits(r, code) == r - 4 && code_value(r, code) == 0,
        2 <= code < 0x8000_0000 ==> used_bits(r, code) == r - 3,
        2 <= code < 0x8000_0000 && code % 2 == 0 ==> code_value(r, code) == code as int / 2,
        code < 0x8000_0000 && code % 2 == 1 ==> code_value(r, code) == -(code as int / 2),
{
    let half = code as int / 2;
    assert((1 - 2 * (code % 2)) * (code / 2) == if code % 2 == 0 { half } else { -half })
        by (nonlinear_arith)
        requires
            half == code as int / 2,
            code % 2 == 0 || code % 2 == 1,
    ;
}

/// The resolution at a place of the noise curve.
pub open spec fn resolution_step(at: int) -> int {
    if at < 0 {
        15
    } else if at < 24 {
        14 - at / 6
    } else if at < 31 {
        10
    } else if at < 43 {
        9 - (at - 31) / 6
    } else if at < 44 {
        7
    } else if at < 46 {
        6
    } else if at < 47 {
        5
    } else if at < 50 {
        4
    } else if at < 53 {
        3
    } else if at < 57 {
        2
    } else if at < 66 {
        1
    } else {
        0
    }
}

proof fn curve_steps(at: int)
    requires
        0 <= at < 66,
    ensures
        INVERT_TABLE[at] == resolution_step(at),
{
    if at < 24 {
        assert(at == 0 || at == 1 || at == 2 || at == 3 || at == 4 || at == 5 || at == 6 || at == 7
            || at == 8 || at == 9 || at == 10 || at == 11 || at == 12 || at == 13 || at == 14 || at
            == 15 || at == 16 || at == 17 || at == 18 || at == 19 || at == 20 || at == 21 || at
            == 22 || at == 23);
    } else if at < 44 {
        assert(at == 24 || at == 25 || at == 26 || at == 27 || at == 28 || at == 29 || at == 30
            || at == 31 || at == 32 || at == 33 || at == 34 || at == 35 || at == 36 || at == 37
            || at == 38 || at == 39 || at == 40 || at == 41 || at == 42 || at == 43);
    } else {
        assert(at == 44 || at == 45 || at == 46 || at == 47 || at == 48 || at == 49 || at == 50
            || at == 51 || at == 52 || at == 53 || at == 54 || at == 55 || at == 56 || at == 57
            || at == 58 || at == 59 || at == 60 || at == 61 || at == 62 || at == 63 || at == 64
            || at == 65);
    }
}

/// The resolution of a band with a scale factor falls in steps along the noise
/// curve and is kept within the limits of the file. The band's place on the
/// curve is that of its hearing threshold, moved up by the frame's noise level
/// and down by two and a half for each step of its scale factor. A band without
/// a scale factor has none.
pub proof fn resolution_tells(
    scale_factor: u8,
    ath: u8,
    noise: u32,
    band: int,
    minimum: u8,
    maximum: u8,
)
    requires
        minimum <= maximum,
        0 <= band < 128,
    ensures
        ({
            let r = resolution_of(scale_factor, ath, noise, band, minimum, maximum);
            let level = (noise + band) % 0x1_0000_0000 / 256;
            let at = ath + level + 1 - 5 * scale_factor / 2;
            &&& scale_factor == 0 ==> r == 0
            &&& scale_factor > 0 ==> minimum <= r <= maximum
            &&& scale_factor > 0 && minimum <= resolution_step(at) <= maximum ==> r
                == resolution_step(at)
            &&& scale_factor > 0 && resolution_step(at) < minimum ==> r == minimum
            &&& scale_factor > 0 && resolution_step(at) > maximum ==> r == maximum
        }),
{
    let level = (noise + band) % 0x1_0000_0000 / 256;
    let at = ath + level + 1 - 5 * scale_factor / 2;
    if 0 <= at < 66 {
        curve_steps(at);
    }
}

/// A louder band is never coded more coarsely.
pub proof fn louder_bands_are_finer(
    quiet: u8,
    loud: u8,
    ath: u8,
    noise: u32,
    band: int,
    minimum: u8,
    maximum: u8,
)
    requires
        minimum <= maximum,
        0 <= band < 128,
        quiet <= loud,
    ensures
        resolution_of(quiet, ath, noise, band, minimum, maximum) <= resolution_of(
            loud,
            ath,
            noise,
            band,
            minimum,
            maximum,
        ),
{
    resolution_tells(quiet, ath, noise, band, minimum, maximum);
    resolution_tells(loud, ath, noise, band, minimum, maximum);
}

/// Whether a stereo pair starts at a channel of a track.
pub open spec fn pair_starts(channels: int, config: u32, at: int) -> bool {
    ||| at == 0
    ||| at == 2 && channels == 4 && config == 0
    ||| at == 3 && channels == 5 && config <= 2
    ||| at == 4 && 6 <= channels <= 8
    ||| at == 6 && channels == 8
}

/// Whether a type is that of a channel of a track: the first or the second of a
/// pair, or alone.
pub open spec fn type_right(t: ChannelType, channels: int, config: u32, at: int) -> bool {
    if pair_starts(channels, config, at) {
        t == ChannelType::StereoPrimary
    } else if pair_starts(channels, config, at - 1) {
        t == ChannelType::StereoSecondary
    } else {
        t == ChannelType::Discrete
    }
}

proof fn tracks_have_pairs(per_track: nat, config: u32, n: nat)
    requires
        2 <= per_track <= 16,
        n * per_track <= 16,
    ensures
        types_of(per_track, config, n).len() == 16,
        forall|t: int, j: int|
            #![trigger types_of(per_track, config, n)[t * per_track + j]]
            0 <= t < n && 0 <= j < per_track ==> type_right(
                types_of(per_track, config, n)[t * per_track + j],
                per_track as int,
                config,
                j,
            ),
        forall|k: int|
            n * per_track <= k < 16 ==> #[trigger] types_of(per_track, config, n)[k]
                == ChannelType::Discrete,
    decreases n,
{
    if n > 0 {
        let m = (n - 1) as nat;
        let per = per_track as int;
        assert(m * per + per == n * per && m * per >= 0) by (nonlinear_arith)
            requires
                m == n - 1,
                m >= 0,
                per >= 2,
        ;
        tracks_have_pairs(per_track, config, m);
        let was = types_of(per_track, config, m);
        let now = types_of(per_track, config, n);
        let base = m * per;
        assert(now == with_track(was, base, per, config));
        assert forall|t: int, j: int|
            #![trigger now[t * per_track + j]]
            0 <= t < n && 0 <= j < per_track implies type_right(
            now[t * per_track + j],
            per,
            config,
            j,
        ) by {
            if t < m {
                assert(t * per + j < base && t * per >= 0) by (nonlinear_arith)
                    requires
                        base == m * per,
                        0 <= t,
                        t + 1 <= m,
                        0 <= j < per,
                ;
                assert(now[t * per + j] == was[t * per_track + j]);
            } else {
                assert(t == m);
                assert(was[base + j] == ChannelType::Discrete);
            }
        }
    } else {
        assert(0 * per_track == 0) by (nonlinear_arith);
    }
}

/// The channels of a stream with stereo bands form pairs in each of its tracks
/// alike: the first two, and by the number of channels the next two, the last
/// two or the last four, if the configuration says so. All others, and all
/// channels of a stream without stereo bands, stand alone.
pub proof fn channels_form_pairs(h: HeaderModel, t: int, j: int)
    requires
        1 <= h.channels <= 16,
        1 <= h.track_count <= h.channels,
        0 <= t < h.track_count,
        0 <= j < h.channels as int / h.track_count as int,
    ensures
        ({
            let per = h.channels as int / h.track_count as int;
            let found = channel_types(h)[t * per + j];
            if h.stereo_band_count > 0 && per > 1 {
                type_right(found, per, h.channel_config, j)
            } else {
                found == ChannelType::Discrete
            }
        }),
{
    let per = h.channels as int / h.track_count as int;
    let n = h.track_count as int;
    assert(n * per <= h.channels && t * per + j < n * per && 0 <= t * per) by (nonlinear_arith)
        requires
            per == h.channels as int / n,
            n >= 1,
            0 <= t,
            t + 1 <= n,
            0 <= j < per,
            h.channels >= 0,
    ;
    if h.stereo_band_count > 0 && per > 1 {
        tracks_have_pairs(per as nat, h.channel_config, n as nat);
        assert(t * (per as nat) + j == t * per + j);
    }
}

/// A key code is multiplied by its subkey times 65535 plus 65537, in 64 bits;
/// without a subkey it stays.
pub proof fn subkey_multiplies(keycode: u64, subkey: u64)
    requires
        subkey == 0 || 2 <= subkey <= 0xFFFF,
    ensures
        subkey == 0 ==> effective_key(keycode, subkey) == keycode,
        subkey > 0 ==> effective_key(keycode, subkey) == (keycode * (subkey * 65_535 + 65_537))
            % 0x1_0000_0000_0000_0000,
{
    if subkey > 0 {
        assert((subkey << 16u64) | ((65_537 - subkey) as u64) == subkey * 65_536 + (65_537
            - subkey)) by (bit_vector)
            requires
                2 <= subkey <= 0xFFFF,
        ;
        assert(subkey % 65536 == subkey);
    }
}

/// The samples that are kept of a block are those that lie behind the delay
/// and within the valid ones, counted from the start of the stream.
pub proof fn valid_samples_are_kept(block: int, delay: int, valid: int, s: int)
    requires
        0 <= block,
        0 <= delay,
        0 <= valid,
        0 <= s < 1024,
    ensures
        ({
            let (low, high) = keep_range(block, delay, valid);
            low <= s < high <==> delay <= 1024 * block + s < delay + valid
        }),
{
}

} // verus!
