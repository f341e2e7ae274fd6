//! A block reads the same whatever blocks were read before it.

use vstd::prelude::*;
use crate::hca::bitreader::peeked;
use crate::hca::block::{
    block_plain, block_refused, channel_unpacked, channels_after, channels_unpacked, error_of,
    frames_dequantized, packed_noise, scale_room, subframe_dequantized,
};
use crate::hca::decoder::{
    coded_bands, ChannelModel, ChannelType, ClHca, HeaderModel, StateModel, HCA_VERSION_200,
};
use crate::hca::reconstruct::{
    group_filled, groups_filled, high_copies, noise_copies, noise_copy, random_after, HighState,
};
use crate::hca::stream_law::state_after;
use crate::hca::unpack::{
    codes_of, dequantized, extra_scales, intensity_deltas, intensity_of, resolutions, resolved,
    scale_deltas, scale_factors_of, scale_values, scales_have_room, scales_moved, sorted_bands,
    top_delta, IntensityState,
};

verus! {

/// Whether two channels have one type, one number of coded bands and lists of
/// the right lengths.
pub open spec fn kin(h: HeaderModel, a: ChannelModel, b: ChannelModel) -> bool {
    &&& a.channel_type == b.channel_type
    &&& a.coded_count == b.coded_count <= 128
    &&& h.version <= HCA_VERSION_200 ==> h.hfr_group_count <= 128
    &&& scales_have_room(h, a)
    &&& shaped(a)
    &&& shaped(b)
}

/// Whether the lists of a channel have the right lengths.
pub open spec fn shaped(c: ChannelModel) -> bool {
    &&& c.scale_factors.len() == 128
    &&& c.intensity.len() == 8
    &&& c.noises.len() == 128
    &&& c.codes.len() == 8
    &&& forall|s: int| 0 <= s < 8 ==> (#[trigger] c.codes[s]).len() == 128
}

/// Whether two lists agree in front of a place.
pub open spec fn same_front(a: Seq<u8>, b: Seq<u8>, n: int) -> bool {
    forall|k: int| 0 <= k < n ==> #[trigger] a[k] == b[k]
}

/// Whether two lists agree from a place on.
pub open spec fn same_end(a: Seq<u8>, b: Seq<u8>, n: int) -> bool {
    forall|k: int| n <= k < 128 ==> #[trigger] a[k] == b[k]
}

/// Whether the scale factors of two channels agree as far as they are used:
/// those of the coded bands and, but in a secondary channel, the
/// high-frequency scales.
pub open spec fn same_scales(h: HeaderModel, a: ChannelModel, b: ChannelModel) -> bool {
    &&& same_front(a.scale_factors, b.scale_factors, a.coded_count as int)
    &&& a.channel_type != ChannelType::StereoSecondary ==> h.hfr_group_count <= 128 && same_end(
        a.scale_factors,
        b.scale_factors,
        128 - h.hfr_group_count,
    )
}

/// Whether the intensities of two channels agree where they are used.
pub open spec fn same_intensity(a: ChannelModel, b: ChannelModel) -> bool {
    a.channel_type == ChannelType::StereoSecondary ==> a.intensity == b.intensity
}

/// Whether the band lists of two channels agree as far as they are filled.
pub open spec fn same_lists(a: ChannelModel, b: ChannelModel) -> bool {
    &&& a.noise_count == b.noise_count
    &&& a.valid_count == b.valid_count
    &&& a.noise_count + a.valid_count <= a.coded_count
    &&& same_front(a.noises, b.noises, a.noise_count as int)
    &&& same_end(a.noises, b.noises, 128 - a.valid_count)
    &&& forall|k: int| 0 <= k < a.noise_count ==> (#[trigger] a.noises[k]) < a.coded_count
    &&& forall|k: int|
        128 - a.valid_count <= k < 128 ==> (#[trigger] a.noises[k]) < a.coded_count
}

/// Whether two channels agree in all that samples are made from, with the
/// values of the first `n` subframes.
pub open spec fn told_alike(h: HeaderModel, a: ChannelModel, b: ChannelModel, n: int) -> bool {
    &&& kin(h, a, b)
    &&& same_scales(h, a, b)
    &&& same_intensity(a, b)
    &&& same_lists(a, b)
    &&& a.resolution == b.resolution
    &&& forall|s: int| 0 <= s < n ==> #[trigger] a.codes[s] == b.codes[s]
}

proof fn deltas_agree(d: Seq<u8>, x: Seq<u8>, y: Seq<u8>, p: nat, bits: nat, n: nat)
    requires
        x.len() == 128,
        y.len() == 128,
        n <= 128,
    ensures
        ({
            let s = scale_deltas(d, x, p, bits, n);
            let t = scale_deltas(d, y, p, bits, n);
            &&& s.ok == t.ok
            &&& s.pos == t.pos
            &&& s.value == t.value
            &&& s.values.len() == 128
            &&& t.values.len() == 128
            &&& s.ok ==> same_front(s.values, t.values, n as int)
            &&& forall|k: int|
                0 <= k < 128 && x[k] == y[k] ==> #[trigger] s.values[k] == t.values[k]
        }),
    decreases n,
{
    if n > 1 {
        deltas_agree(d, x, y, p, bits, (n - 1) as nat);
    }
}

proof fn values_agree(d: Seq<u8>, a: ChannelModel, b: ChannelModel, p: nat, n: nat, bits: nat)
    requires
        a.scale_factors.len() == 128,
        b.scale_factors.len() == 128,
        n <= 128,
    ensures
        ({
            let u = scale_values(d, a, p, n, bits);
            let v = scale_values(d, b, p, n, bits);
            &&& u.error == v.error
            &&& u.pos == v.pos
            &&& u.c == (ChannelModel { scale_factors: u.c.scale_factors, ..a })
            &&& v.c == (ChannelModel { scale_factors: v.c.scale_factors, ..b })
            &&& u.c.scale_factors.len() == 128
            &&& v.c.scale_factors.len() == 128
            &&& u.error is None ==> same_front(u.c.scale_factors, v.c.scale_factors, n as int)
            &&& forall|k: int|
                0 <= k < 128 && a.scale_factors[k] == b.scale_factors[k]
                    ==> #[trigger] u.c.scale_factors[k] == v.c.scale_factors[k]
        }),
{
    if bits > 0 && bits < 6 {
        deltas_agree(d, a.scale_factors, b.scale_factors, p, bits, n);
    }
}

proof fn scales_agree(h: HeaderModel, d: Seq<u8>, a: ChannelModel, b: ChannelModel, p: nat)
    requires
        kin(h, a, b),
    ensures
        ({
            let u = scale_factors_of(h, d, a, p);
            let v = scale_factors_of(h, d, b, p);
            &&& u.error == v.error
            &&& u.pos == v.pos
            &&& u.c == (ChannelModel { scale_factors: u.c.scale_factors, ..a })
            &&& v.c == (ChannelModel { scale_factors: v.c.scale_factors, ..b })
            &&& u.error is None ==> {
                &&& kin(h, u.c, v.c)
                &&& extra_scales(h, a.channel_type) <= 128
                &&& same_front(u.c.scale_factors, v.c.scale_factors, a.coded_count as int)
                &&& same_end(
                    u.c.scale_factors,
                    v.c.scale_factors,
                    128 - extra_scales(h, a.channel_type),
                )
            }
        }),
{
    let bits = peeked(d, p, 3);
    let extra = extra_scales(h, a.channel_type);
    let count = a.coded_count + extra;
    if count <= 128 {
        values_agree(d, a, b, p + 3, count, bits);
        let x = scale_values(d, a, p + 3, count, bits);
        let y = scale_values(d, b, p + 3, count, bits);
        if x.error is None {
            let s = x.c.scale_factors;
            let t = y.c.scale_factors;
            let m = scales_moved(s, count, extra);
            let n = scales_moved(t, count, extra);
            if extra > 0 {
                assert(count < 128);
                assert forall|k: int| 128 - extra <= k < 128 implies #[trigger] m[k] == n[k] by {
                    let at = count - (127 - k);
                    assert(k < 127 ==> a.coded_count < at < count && s[at] == t[at]);
                }
            }
            assert(same_front(m, n, a.coded_count as int));
        }
    }
}

proof fn intensity_deltas_agree(
    d: Seq<u8>,
    x: IntensityState,
    y: IntensityState,
    bits: nat,
    top: u8,
    n: nat,
)
    requires
        x.error is None,
        y.error is None,
        x.value == y.value,
        x.pos == y.pos,
        x.values.len() == 8,
        y.values.len() == 8,
        x.values[0] == y.values[0],
        1 <= n <= 8,
    ensures
        ({
            let s = intensity_deltas(d, x, bits, top, n);
            let t = intensity_deltas(d, y, bits, top, n);
            &&& s.error == t.error
            &&& s.pos == t.pos
            &&& s.value == t.value
            &&& s.values.len() == 8
            &&& t.values.len() == 8
            &&& s.error is None ==> same_front(s.values, t.values, n as int)
        }),
    decreases n,
{
    if n > 1 {
        intensity_deltas_agree(d, x, y, bits, top, (n - 1) as nat);
    }
}

proof fn sides_agree(h: HeaderModel, d: Seq<u8>, a: ChannelModel, b: ChannelModel, p: nat)
    requires
        kin(h, a, b),
        extra_scales(h, a.channel_type) <= 128,
        same_front(a.scale_factors, b.scale_factors, a.coded_count as int),
        same_end(a.scale_factors, b.scale_factors, 128 - extra_scales(h, a.channel_type)),
    ensures
        ({
            let u = intensity_of(h, d, a, p);
            let v = intensity_of(h, d, b, p);
            &&& u.error == v.error
            &&& u.pos == v.pos
            &&& u.error is None ==> {
                &&& kin(h, u.c, v.c)
                &&& same_scales(h, u.c, v.c)
                &&& same_intensity(u.c, v.c)
            }
        }),
{
    let u = intensity_of(h, d, a, p);
    let v = intensity_of(h, d, b, p);
    if a.channel_type == ChannelType::StereoSecondary {
        if h.version <= HCA_VERSION_200 {
            assert(u.c.intensity =~= v.c.intensity);
        } else {
            let first = peeked(d, p, 4) as u8;
            let bits = peeked(d, p + 4, 2);
            if first < 15 && bits != 3 {
                let x = IntensityState {
                    error: None,
                    values: a.intensity.update(0, first),
                    value: first,
                    pos: p + 6,
                };
                let y = IntensityState {
                    error: None,
                    values: b.intensity.update(0, first),
                    value: first,
                    pos: p + 6,
                };
                intensity_deltas_agree(d, x, y, bits, top_delta(bits), 8);
                if u.error is None {
                    assert(u.c.intensity =~= v.c.intensity);
                }
            }
        }
    } else if h.version <= HCA_VERSION_200 {
        assert(same_front(u.c.scale_factors, v.c.scale_factors, a.coded_count as int));
    }
}

proof fn sorting_agrees(a: ChannelModel, b: ChannelModel, res: Seq<u8>, n: nat)
    requires
        n <= a.coded_count <= 128,
        a.coded_count == b.coded_count,
        a.noises.len() == 128,
        b.noises.len() == 128,
        same_front(a.scale_factors, b.scale_factors, a.coded_count as int),
    ensures
        ({
            let s = sorted_bands(a, res, n);
            let t = sorted_bands(b, res, n);
            &&& s.noise_count == t.noise_count
            &&& s.valid_count == t.valid_count
            &&& s.noise_count + s.valid_count <= n
            &&& s.noises.len() == 128
            &&& t.noises.len() == 128
            &&& same_front(s.noises, t.noises, s.noise_count as int)
            &&& same_end(s.noises, t.noises, 128 - s.valid_count)
            &&& forall|k: int| 0 <= k < s.noise_count ==> (#[trigger] s.noises[k]) < a.coded_count
            &&& forall|k: int|
                128 - s.valid_count <= k < 128 ==> (#[trigger] s.noises[k]) < a.coded_count
        }),
    decreases n,
{
    if n > 0 {
        sorting_agrees(a, b, res, (n - 1) as nat);
        assert(a.scale_factors[n - 1] == b.scale_factors[n - 1]);
    }
}

proof fn resolving_agrees(
    h: HeaderModel,
    ath: Seq<u8>,
    noise: u32,
    a: ChannelModel,
    b: ChannelModel,
)
    requires
        kin(h, a, b),
        same_scales(h, a, b),
        same_intensity(a, b),
    ensures
        told_alike(h, resolved(h, ath, noise, a), resolved(h, ath, noise, b), 0),
{
    let n = a.coded_count;
    let x = resolutions(h, ath, noise, a, n);
    let y = resolutions(h, ath, noise, b, n);
    assert forall|i: int| 0 <= i < n implies x[i] == y[i] by {
        assert(a.scale_factors[i] == b.scale_factors[i]);
    }
    assert(x =~= y);
    sorting_agrees(a, b, x, n);
    assert(resolved(h, ath, noise, a).resolution =~= resolved(h, ath, noise, b).resolution);
}

proof fn channel_agrees(
    h: HeaderModel,
    ath: Seq<u8>,
    noise: u32,
    d: Seq<u8>,
    a: ChannelModel,
    b: ChannelModel,
    p: nat,
)
    requires
        kin(h, a, b),
    ensures
        ({
            let u = channel_unpacked(h, ath, noise, d, a, p);
            let v = channel_unpacked(h, ath, noise, d, b, p);
            &&& u.error == v.error
            &&& u.error is None ==> u.pos == v.pos && told_alike(h, u.c, v.c, 0)
        }),
{
    reveal(channel_unpacked);
    scales_agree(h, d, a, b, p);
    let u = scale_factors_of(h, d, a, p);
    let v = scale_factors_of(h, d, b, p);
    if u.error is None {
        sides_agree(h, d, u.c, v.c, u.pos);
        let x = intensity_of(h, d, u.c, u.pos);
        let y = intensity_of(h, d, v.c, v.pos);
        if x.error is None {
            resolving_agrees(h, ath, noise, x.c, y.c);
        }
    }
}

proof fn channels_agree(
    h: HeaderModel,
    ath: Seq<u8>,
    noise: u32,
    d: Seq<u8>,
    xs: Seq<ChannelModel>,
    ys: Seq<ChannelModel>,
    p: nat,
    n: nat,
)
    requires
        n <= h.channels <= 16,
        xs.len() == 16,
        ys.len() == 16,
        forall|i: int| 0 <= i < h.channels ==> kin(h, #[trigger] xs[i], ys[i]),
    ensures
        ({
            let s = channels_unpacked(h, ath, noise, d, xs, p, n);
            let t = channels_unpacked(h, ath, noise, d, ys, p, n);
            &&& s.error == t.error
            &&& s.channels.len() == 16
            &&& t.channels.len() == 16
            &&& s.error is None ==> {
                &&& s.pos == t.pos
                &&& forall|i: int|
                    0 <= i < n ==> told_alike(h, #[trigger] s.channels[i], t.channels[i], 0)
                &&& forall|i: int|
                    n <= i < h.channels ==> kin(h, #[trigger] s.channels[i], t.channels[i])
            }
        }),
    decreases n,
{
    if n > 0 {
        channels_agree(h, ath, noise, d, xs, ys, p, (n - 1) as nat);
        let s = channels_unpacked(h, ath, noise, d, xs, p, (n - 1) as nat);
        let t = channels_unpacked(h, ath, noise, d, ys, p, (n - 1) as nat);
        if s.error is None {
            assert(kin(h, s.channels[n - 1], t.channels[n - 1]));
            channel_agrees(h, ath, noise, d, s.channels[n - 1], t.channels[n - 1], s.pos);
        }
    }
}

proof fn codes_agree(d: Seq<u8>, res: Seq<u8>, x: Seq<i32>, y: Seq<i32>, p: nat, n: nat)
    requires
        x.len() == 128,
        y.len() == 128,
        n <= 128,
    ensures
        ({
            let s = codes_of(d, res, x, p, n);
            let t = codes_of(d, res, y, p, n);
            &&& s.pos == t.pos
            &&& s.codes.len() == 128
            &&& t.codes.len() == 128
            &&& forall|k: int| 0 <= k < n ==> #[trigger] s.codes[k] == t.codes[k]
        }),
    decreases n,
{
    if n > 0 {
        codes_agree(d, res, x, y, p, (n - 1) as nat);
    }
}

proof fn row_agrees(h: HeaderModel, d: Seq<u8>, a: ChannelModel, b: ChannelModel, p: nat, s: int)
    requires
        0 <= s < 8,
        told_alike(h, a, b, s),
    ensures
        dequantized(d, a, p, s).1 == dequantized(d, b, p, s).1,
        told_alike(h, dequantized(d, a, p, s).0, dequantized(d, b, p, s).0, s + 1),
{
    let n = a.coded_count;
    assert(a.codes[s].len() == 128 && b.codes[s].len() == 128);
    codes_agree(d, a.resolution, a.codes[s], b.codes[s], p, n);
    let x = codes_of(d, a.resolution, a.codes[s], p, n);
    let y = codes_of(d, b.resolution, b.codes[s], p, n);
    let u = dequantized(d, a, p, s).0;
    let v = dequantized(d, b, p, s).0;
    assert(u.codes[s] =~= v.codes[s]) by {
        assert forall|k: int| 0 <= k < 128 implies u.codes[s][k] == v.codes[s][k] by {
            if k < n {
                assert(x.codes[k] == y.codes[k]);
            }
        }
    }
    assert forall|t: int| 0 <= t < s + 1 implies #[trigger] u.codes[t] == v.codes[t] by {
        if t < s {
            assert(a.codes[t] == b.codes[t]);
        }
    }
}

proof fn subframe_agrees(
    h: HeaderModel,
    d: Seq<u8>,
    xs: Seq<ChannelModel>,
    ys: Seq<ChannelModel>,
    p: nat,
    s: int,
    n: nat,
)
    requires
        0 <= s < 8,
        n <= h.channels <= 16,
        xs.len() == 16,
        ys.len() == 16,
        forall|i: int| 0 <= i < h.channels ==> told_alike(h, #[trigger] xs[i], ys[i], s),
    ensures
        ({
            let (us, q) = subframe_dequantized(d, xs, p, s, n);
            let (vs, r) = subframe_dequantized(d, ys, p, s, n);
            &&& q == r
            &&& us.len() == 16
            &&& vs.len() == 16
            &&& forall|i: int| 0 <= i < n ==> told_alike(h, #[trigger] us[i], vs[i], s + 1)
            &&& forall|i: int| n <= i < h.channels ==> told_alike(h, #[trigger] us[i], vs[i], s)
        }),
    decreases n,
{
    if n > 0 {
        subframe_agrees(h, d, xs, ys, p, s, (n - 1) as nat);
        let (us, q) = subframe_dequantized(d, xs, p, s, (n - 1) as nat);
        let (vs, r) = subframe_dequantized(d, ys, p, s, (n - 1) as nat);
        assert(told_alike(h, us[n - 1], vs[n - 1], s));
        row_agrees(h, d, us[n - 1], vs[n - 1], q, s);
    }
}

proof fn frames_agree(
    h: HeaderModel,
    d: Seq<u8>,
    xs: Seq<ChannelModel>,
    ys: Seq<ChannelModel>,
    p: nat,
    n: nat,
)
    requires
        n <= 8,
        h.channels <= 16,
        xs.len() == 16,
        ys.len() == 16,
        forall|i: int| 0 <= i < h.channels ==> told_alike(h, #[trigger] xs[i], ys[i], 0),
    ensures
        ({
            let (us, q) = frames_dequantized(d, xs, p, h.channels as nat, n);
            let (vs, r) = frames_dequantized(d, ys, p, h.channels as nat, n);
            &&& q == r
            &&& us.len() == 16
            &&& vs.len() == 16
            &&& forall|i: int|
                0 <= i < h.channels ==> told_alike(h, #[trigger] us[i], vs[i], n as int)
        }),
    decreases n,
{
    if n > 0 {
        frames_agree(h, d, xs, ys, p, (n - 1) as nat);
        let (us, q) = frames_dequantized(d, xs, p, h.channels as nat, (n - 1) as nat);
        let (vs, r) = frames_dequantized(d, ys, p, h.channels as nat, (n - 1) as nat);
        subframe_agrees(h, d, us, vs, q, n - 1, h.channels as nat);
    }
}

/// Two decoders that took the same header are set up alike.
pub proof fn opened_are_kin(a: &ClHca, b: &ClHca)
    requires
        a.wf(),
        b.wf(),
        a.is_valid,
        b.is_valid,
        a.header() == b.header(),
        scale_room(a.header()),
    ensures
        a.header().channels <= 16,
        a.state().channel.len() == 16,
        b.state().channel.len() == 16,
        forall|i: int|
            0 <= i < a.header().channels ==> kin(
                a.header(),
                #[trigger] a.state().channel[i],
                b.state().channel[i],
            ),
{
    assert forall|i: int| 0 <= i < a.header().channels implies kin(
        a.header(),
        #[trigger] a.state().channel[i],
        b.state().channel[i],
    ) by {
        let x = a.state().channel[i];
        let y = b.state().channel[i];
        assert(x == a.channel@[i]@ && y == b.channel@[i]@);
        assert(x.coded_count == coded_bands(a.header(), x.channel_type));
        assert(y.coded_count == coded_bands(b.header(), y.channel_type));
    }
}

/// A block reads the same by two decoders that were set up alike, whatever
/// they read before: both refuse it for the same reason, or both get the same
/// scale factors, intensities, resolutions, band lists and values.
pub proof fn block_stands_alone(h: HeaderModel, a: StateModel, b: StateModel, d: Seq<u8>)
    requires
        h.channels <= 16,
        a.is_valid == b.is_valid,
        a.ath_curve == b.ath_curve,
        a.cipher_table == b.cipher_table,
        a.channel.len() == 16,
        b.channel.len() == 16,
        forall|i: int| 0 <= i < h.channels ==> kin(h, #[trigger] a.channel[i], b.channel[i]),
    ensures
        error_of(h, a, d) == error_of(h, b, d),
        error_of(h, a, d) is None ==> forall|i: int|
            0 <= i < h.channels ==> told_alike(
                h,
                #[trigger] channels_after(h, a, d)[i],
                channels_after(h, b, d)[i],
                8,
            ),
{
    let plain = block_plain(h, a, d);
    let noise = packed_noise(plain);
    let n = h.channels as nat;
    if block_refused(h, a, d) is None {
        channels_agree(h, a.ath_curve, noise, plain, a.channel, b.channel, 32, n);
        let s = channels_unpacked(h, a.ath_curve, noise, plain, a.channel, 32, n);
        let t = channels_unpacked(h, b.ath_curve, noise, plain, b.channel, 32, n);
        if s.error is None {
            frames_agree(h, plain, s.channels, t.channels, s.pos, 8);
        }
    }
}

proof fn channel_keeps(
    h: HeaderModel,
    ath: Seq<u8>,
    noise: u32,
    d: Seq<u8>,
    c: ChannelModel,
    p: nat,
)
    requires
        kin(h, c, c),
    ensures
        kin(h, c, channel_unpacked(h, ath, noise, d, c, p).c),
{
    reveal(channel_unpacked);
    let count = c.coded_count + extra_scales(h, c.channel_type);
    if count <= 128 {
        values_agree(d, c, c, p + 3, count, peeked(d, p, 3));
    }
    let u = scale_factors_of(h, d, c, p);
    assert(kin(h, c, u.c));
    if u.error is None {
        let bits = peeked(d, u.pos + 4, 2);
        let first = peeked(d, u.pos, 4) as u8;
        let x = IntensityState {
            error: None,
            values: u.c.intensity.update(0, first),
            value: first,
            pos: u.pos + 6,
        };
        intensity_deltas_agree(d, x, x, bits, top_delta(bits), 8);
        let v = intensity_of(h, d, u.c, u.pos);
        assert(kin(h, c, v.c));
        let n = c.coded_count;
        sorting_agrees(v.c, v.c, resolutions(h, ath, noise, v.c, n), n);
    }
}

proof fn channels_keep(
    h: HeaderModel,
    ath: Seq<u8>,
    noise: u32,
    d: Seq<u8>,
    cs: Seq<ChannelModel>,
    p: nat,
    n: nat,
)
    requires
        n <= h.channels <= 16,
        cs.len() == 16,
        forall|i: int| 0 <= i < h.channels ==> kin(h, #[trigger] cs[i], cs[i]),
    ensures
        ({
            let s = channels_unpacked(h, ath, noise, d, cs, p, n).channels;
            &&& s.len() == 16
            &&& forall|i: int| 0 <= i < h.channels ==> kin(h, cs[i], #[trigger] s[i])
        }),
    decreases n,
{
    if n > 0 {
        channels_keep(h, ath, noise, d, cs, p, (n - 1) as nat);
        let s = channels_unpacked(h, ath, noise, d, cs, p, (n - 1) as nat);
        if s.error is None {
            assert(kin(h, cs[n - 1], s.channels[n - 1]));
            channel_keeps(h, ath, noise, d, s.channels[n - 1], s.pos);
        }
    } else {
        assert forall|i: int| 0 <= i < h.channels implies kin(h, cs[i], #[trigger] cs[i]) by {}
    }
}

proof fn rows_keep(
    h: HeaderModel,
    d: Seq<u8>,
    cs: Seq<ChannelModel>,
    p: nat,
    s: int,
    n: nat,
)
    requires
        0 <= s < 8,
        n <= h.channels <= 16,
        cs.len() == 16,
        forall|i: int| 0 <= i < h.channels ==> kin(h, #[trigger] cs[i], cs[i]),
    ensures
        ({
            let us = subframe_dequantized(d, cs, p, s, n).0;
            &&& us.len() == 16
            &&& forall|i: int| 0 <= i < h.channels ==> kin(h, cs[i], #[trigger] us[i])
        }),
    decreases n,
{
    if n > 0 {
        rows_keep(h, d, cs, p, s, (n - 1) as nat);
        let (us, q) = subframe_dequantized(d, cs, p, s, (n - 1) as nat);
        assert(kin(h, cs[n - 1], us[n - 1]));
    } else {
        assert forall|i: int| 0 <= i < h.channels implies kin(h, cs[i], #[trigger] cs[i]) by {}
    }
}

proof fn frames_keep(h: HeaderModel, d: Seq<u8>, cs: Seq<ChannelModel>, p: nat, n: nat)
    requires
        n <= 8,
        h.channels <= 16,
        cs.len() == 16,
        forall|i: int| 0 <= i < h.channels ==> kin(h, #[trigger] cs[i], cs[i]),
    ensures
        ({
            let us = frames_dequantized(d, cs, p, h.channels as nat, n).0;
            &&& us.len() == 16
            &&& forall|i: int| 0 <= i < h.channels ==> kin(h, cs[i], #[trigger] us[i])
        }),
    decreases n,
{
    if n > 0 {
        frames_keep(h, d, cs, p, (n - 1) as nat);
        let (us, q) = frames_dequantized(d, cs, p, h.channels as nat, (n - 1) as nat);
        assert forall|i: int| 0 <= i < h.channels implies kin(h, #[trigger] us[i], us[i]) by {
            assert(kin(h, cs[i], us[i]));
        }
        rows_keep(h, d, us, q, n - 1, h.channels as nat);
        let vs = subframe_dequantized(d, us, q, n - 1, h.channels as nat).0;
        assert forall|i: int| 0 <= i < h.channels implies kin(h, cs[i], #[trigger] vs[i]) by {
            assert(kin(h, us[i], vs[i]));
            assert(kin(h, cs[i], us[i]));
        }
    } else {
        assert forall|i: int| 0 <= i < h.channels implies kin(h, cs[i], #[trigger] cs[i]) by {}
    }
}

proof fn block_keeps(h: HeaderModel, st: StateModel, d: Seq<u8>)
    requires
        h.channels <= 16,
        st.channel.len() == 16,
        forall|i: int| 0 <= i < h.channels ==> kin(h, #[trigger] st.channel[i], st.channel[i]),
    ensures
        channels_after(h, st, d).len() == 16,
        forall|i: int|
            0 <= i < h.channels ==> kin(h, st.channel[i], #[trigger] channels_after(h, st, d)[i]),
{
    let plain = block_plain(h, st, d);
    let noise = packed_noise(plain);
    let n = h.channels as nat;
    let cs = st.channel;
    assert forall|i: int| 0 <= i < h.channels implies kin(h, cs[i], #[trigger] cs[i]) by {}
    if block_refused(h, st, d) is None {
        channels_keep(h, st.ath_curve, noise, plain, cs, 32, n);
        let s = channels_unpacked(h, st.ath_curve, noise, plain, cs, 32, n);
        if s.error is None {
            let us = s.channels;
            assert forall|i: int| 0 <= i < h.channels implies kin(h, #[trigger] us[i], us[i]) by {
                assert(kin(h, cs[i], us[i]));
            }
            frames_keep(h, plain, us, s.pos, 8);
            let vs = frames_dequantized(plain, us, s.pos, n, 8).0;
            assert forall|i: int| 0 <= i < h.channels implies kin(h, cs[i], #[trigger] vs[i]) by {
                assert(kin(h, us[i], vs[i]));
                assert(kin(h, cs[i], us[i]));
            }
        }
    }
}

pub(crate) proof fn blocks_keep(h: HeaderModel, st: StateModel, blocks: Seq<Seq<u8>>, k: nat)
    requires
        h.channels <= 16,
        st.channel.len() == 16,
        forall|i: int| 0 <= i < h.channels ==> kin(h, #[trigger] st.channel[i], st.channel[i]),
    ensures
        ({
            let after = state_after(h, st, blocks, k);
            &&& after == (StateModel { channel: after.channel, ..st })
            &&& after.channel.len() == 16
            &&& forall|i: int|
                0 <= i < h.channels ==> kin(h, st.channel[i], #[trigger] after.channel[i])
        }),
    decreases k,
{
    let cs = st.channel;
    if k == 0 {
        assert forall|i: int| 0 <= i < h.channels implies kin(h, cs[i], #[trigger] cs[i]) by {}
    } else {
        blocks_keep(h, st, blocks, (k - 1) as nat);
        let before = state_after(h, st, blocks, (k - 1) as nat);
        let us = before.channel;
        assert forall|i: int| 0 <= i < h.channels implies kin(h, #[trigger] us[i], us[i]) by {
            assert(kin(h, cs[i], us[i]));
        }
        block_keeps(h, before, blocks[k - 1]);
        let vs = channels_after(h, before, blocks[k - 1]);
        assert forall|i: int| 0 <= i < h.channels implies kin(h, cs[i], #[trigger] vs[i]) by {
            assert(kin(h, us[i], vs[i]));
            assert(kin(h, cs[i], us[i]));
        }
    }
}

/// Blocks read before, whole or refused, change nothing in what a block gives:
/// a decoder that was only set up reads it as one that read `k` blocks first.
pub proof fn history_changes_nothing(
    h: HeaderModel,
    st: StateModel,
    blocks: Seq<Seq<u8>>,
    k: nat,
    d: Seq<u8>,
)
    requires
        h.channels <= 16,
        st.channel.len() == 16,
        forall|i: int| 0 <= i < h.channels ==> kin(h, #[trigger] st.channel[i], st.channel[i]),
    ensures
        ({
            let after = state_after(h, st, blocks, k);
            &&& error_of(h, st, d) == error_of(h, after, d)
            &&& error_of(h, st, d) is None ==> forall|i: int|
                0 <= i < h.channels ==> told_alike(
                    h,
                    #[trigger] channels_after(h, st, d)[i],
                    channels_after(h, after, d)[i],
                    8,
                )
        }),
{
    blocks_keep(h, st, blocks, k);
    let after = state_after(h, st, blocks, k);
    assert forall|i: int| 0 <= i < h.channels implies kin(
        h,
        #[trigger] st.channel[i],
        after.channel[i],
    ) by {
        assert(kin(h, st.channel[i], after.channel[i]));
    }
    block_stands_alone(h, st, after, d);
}

proof fn group_agrees(
    h: HeaderModel,
    a: ChannelModel,
    b: ChannelModel,
    s: HighState,
    g: int,
    n: nat,
)
    requires
        same_scales(h, a, b),
        a.channel_type != ChannelType::StereoSecondary,
        0 <= g < h.hfr_group_count <= 128,
        s.low < a.coded_count,
    ensures
        group_filled(h, a, s, g, n) == group_filled(h, b, s, g, n),
        group_filled(h, a, s, g, n).low < a.coded_count,
    decreases n,
{
    if n > 0 {
        group_agrees(h, a, b, s, g, (n - 1) as nat);
        let t = group_filled(h, a, s, g, (n - 1) as nat);
        assert(a.scale_factors[128 - h.hfr_group_count + g] == b.scale_factors[128
            - h.hfr_group_count + g]);
        if t.low >= 0 {
            assert(a.scale_factors[t.low] == b.scale_factors[t.low]);
        }
    }
}

proof fn groups_agree(h: HeaderModel, a: ChannelModel, b: ChannelModel, g: nat)
    requires
        same_scales(h, a, b),
        a.channel_type != ChannelType::StereoSecondary,
        g <= h.hfr_group_count <= 128,
        a.coded_count == h.base_band_count + h.stereo_band_count,
    ensures
        groups_filled(h, a, g) == groups_filled(h, b, g),
        groups_filled(h, a, g).low < a.coded_count,
    decreases g,
{
    if g > 0 {
        groups_agree(h, a, b, (g - 1) as nat);
        group_agrees(
            h,
            a,
            b,
            groups_filled(h, a, (g - 1) as nat),
            g - 1,
            h.bands_per_hfr_group as nat,
        );
    }
}

/// Channels that agree have their missing bands filled in one way.
pub proof fn bands_fill_alike(h: HeaderModel, a: ChannelModel, b: ChannelModel, r: u32)
    requires
        told_alike(h, a, b, 8),
        a.channel_type != ChannelType::StereoSecondary ==> a.coded_count == h.base_band_count
            + h.stereo_band_count,
    ensures
        high_copies(h, a) == high_copies(h, b),
        noise_copies(h, a, r) == noise_copies(h, b, r),
{
    if a.channel_type != ChannelType::StereoSecondary {
        groups_agree(h, a, b, h.hfr_group_count as nat);
    }
    if a.valid_count > 0 {
        assert forall|i: int| 0 <= i < a.noise_count implies #[trigger] noise_copy(a, r, i as nat)
            == noise_copy(b, r, i as nat) by {
            let drawn = random_after(r, i as nat + 1);
            let v = a.valid_count as int;
            let x = (drawn % 0x8000) as int;
            let at = 128 - v + (x * v) / 0x8000;
            assert(0 <= x * v && x * v < 0x8000 * v) by (nonlinear_arith)
                requires
                    0 <= x < 0x8000,
                    v > 0,
            ;
            assert(0 <= (x * v) / 0x8000 < v);
            assert(a.noises[i] == b.noises[i]);
            assert(a.noises[at] == b.noises[at]);
            assert(a.noises[i] < a.coded_count);
            assert(a.noises[at] < a.coded_count);
            assert(a.scale_factors[a.noises[i] as int] == b.scale_factors[b.noises[i] as int]);
            assert(a.scale_factors[a.noises[at] as int] == b.scale_factors[b.noises[at] as int]);
        }
        assert(noise_copies(h, a, r) =~= noise_copies(h, b, r));
    }
}

} // verus!
