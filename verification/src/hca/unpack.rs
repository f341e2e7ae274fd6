//! HCA decoder core: the bit stream of a block, up to quantized values.

use vstd::prelude::*;
use vstd::arithmetic::power2::{lemma2_to64, lemma_pow2_strictly_increases, pow2};
use crate::acb::utf::wrap32;
use crate::bytes::zeros;
use crate::hca::bitreader::{countable, peeked, peeked_bound, BitReader};
use crate::hca::bits::{word, word_bound};
use crate::hca::decoder::{
    rows, ChannelModel, ChannelType, ClHca, HcaError, HeaderModel, StChannel, HCA_VERSION_200,
};
use crate::hca::tables::{
    DEQ_USED_BASE, DEQ_USED_THRESH, INVERT_TABLE, MAX_BIT_TABLE, READ_VAL_TABLE,
};

verus! {

/// Reading a channel: where it stands, or why it failed.
pub struct Unpacked {
    pub error: Option<HcaError>,
    pub c: ChannelModel,
    pub pos: nat,
}

/// Reading scale factors one after the other: those read so far over what the
/// channel held, the last one, and the position.
pub struct ScaleState {
    pub ok: bool,
    pub values: Seq<u8>,
    pub value: u8,
    pub pos: nat,
}

/// The first `n` scale factors stored by their differences, of `bits` bits
/// each. The highest difference announces six plain bits.
pub open spec fn scale_deltas(d: Seq<u8>, held: Seq<u8>, p: nat, bits: nat, n: nat) -> ScaleState
    decreases n,
{
    if n <= 1 {
        let value = word(d, p, 6) as u8;
        ScaleState { ok: true, values: held.update(0, value), value, pos: p + 6 }
    } else {
        let s = scale_deltas(d, held, p, bits, (n - 1) as nat);
        let top = (pow2(bits) - 1) as int;
        let delta = word(d, s.pos, bits);
        if !s.ok {
            s
        } else if delta == top {
            let value = word(d, s.pos + bits, 6) as u8;
            ScaleState {
                ok: true,
                values: s.values.update(n - 1, value),
                value,
                pos: s.pos + bits + 6,
            }
        } else {
            let v = s.value + delta - top / 2;
            if 0 <= v < 64 {
                ScaleState {
                    ok: true,
                    values: s.values.update(n - 1, v as u8),
                    value: v as u8,
                    pos: s.pos + bits,
                }
            } else {
                ScaleState { ok: false, ..s }
            }
        }
    }
}

/// `n` scale factors of six plain bits each.
pub open spec fn scale_plain(d: Seq<u8>, held: Seq<u8>, p: nat, n: nat) -> Seq<u8> {
    Seq::new(
        held.len(),
        |i: int| if i < n { word(d, (p + 6 * i) as nat, 6) as u8 } else { held[i] },
    )
}

/// The message of a scale factor outside its range.
pub open spec fn bad_scale() -> HcaError {
    HcaError::UnpackError("invalid scalefactor")
}

/// `n` scale factors, by the width of their differences: none at all, plain
/// ones for six and more, differences else. A failure leaves the position.
pub open spec fn scale_values(d: Seq<u8>, c: ChannelModel, p: nat, n: nat, bits: nat) -> Unpacked {
    if bits == 0 {
        Unpacked { error: None, c: ChannelModel { scale_factors: zeros(128), ..c }, pos: p }
    } else if bits >= 6 {
        Unpacked {
            error: None,
            c: ChannelModel { scale_factors: scale_plain(d, c.scale_factors, p, n), ..c },
            pos: p + 6 * n,
        }
    } else {
        let s = scale_deltas(d, c.scale_factors, p, bits, n);
        Unpacked {
            error: if s.ok { None } else { Some(bad_scale()) },
            c: ChannelModel { scale_factors: s.values, ..c },
            pos: if s.ok { s.pos } else { p },
        }
    }
}

impl ClHca {
    /// Reads `count` scale factors, stored by differences of `delta_bits` bits.
    pub fn unpack_scale_factor_values(
        channel: &mut StChannel,
        br: &mut BitReader,
        count: usize,
        delta_bits: u8,
    ) -> (r: Result<(), HcaError>)
        requires
            count <= 128,
            countable(old(br).bytes().len()),
            old(br).pos() <= 0x1000_0000,
        ensures
            unpacked_as(
                r,
                scale_values(
                    old(br).bytes(),
                    old(channel)@,
                    old(br).pos(),
                    count as nat,
                    delta_bits as nat,
                ),
                final(channel)@,
                final(br).pos(),
            ),
            final(br).bytes() == old(br).bytes(),
            final(br).pos() <= old(br).pos() + 1500,
    {
        if delta_bits == 0 {
            channel.scale_factors = [0; 128];
            assert(channel.scale_factors@ =~= zeros(128));
            return Ok(());
        }
        let ghost d = br.bytes();
        let ghost p = br.pos();
        let ghost before = channel.scale_factors@;
        let mut acc = br.acc();
        proof {
            lemma2_to64();
        }
        if delta_bits >= 6 {
            let mut i: usize = 0;
            while i < count
                invariant
                    i <= count <= 128,
                    acc.wf(),
                    acc.bytes() == d,
                    acc.pos() == p + 6 * i,
                    p <= 0x1000_0000,
                    before.len() == 128,
                    channel@ == (ChannelModel { scale_factors: channel.scale_factors@, ..old(channel)@ }),
                    channel.scale_factors@ =~= scale_plain(d, before, p, i as nat),
                decreases count - i,
            {
                proof {
                    lemma2_to64();
                    word_bound(d, acc.pos(), 6);
                }
                let v: u8 = acc.read(6) as u8;
                channel.scale_factors[i] = v;
                i += 1;
            }
            acc.sync(br);
            return Ok(());
        }
        let top: u32 = match delta_bits {
            1 => 1,
            2 => 3,
            3 => 7,
            4 => 15,
            _ => 31,
        };
        assert(top == pow2(delta_bits as nat) - 1);
        proof {
            word_bound(d, p, 6);
        }
        let mut value: u8 = acc.read(6) as u8;
        channel.scale_factors[0] = value;
        let mut i: usize = 1;
        assert(channel.scale_factors@ =~= before.update(0, value));
        while i < count
            invariant
                1 <= i,
                i <= count || i == 1,
                count <= 128,
                1 <= delta_bits <= 5,
                top == pow2(delta_bits as nat) - 1,
                top <= 31,
                acc.wf(),
                acc.bytes() == d,
                d == br.bytes(),
                d == old(br).bytes(),
                br.pos() == p,
                p == old(br).pos(),
                p <= 0x1000_0000,
                before == old(channel).scale_factors@,
                value < 64,
                ({
                    let s = scale_deltas(d, before, p, delta_bits as nat, i as nat);
                    &&& s.ok
                    &&& s.values == channel.scale_factors@
                    &&& s.value == value
                    &&& s.pos == acc.pos()
                    &&& s.pos <= p + 11 * i
                }),
                channel@ == (ChannelModel { scale_factors: channel.scale_factors@, ..old(channel)@ }),
            decreases count - i,
        {
            let ghost s = scale_deltas(d, before, p, delta_bits as nat, i as nat);
            let ghost next = scale_deltas(d, before, p, delta_bits as nat, (i + 1) as nat);
            proof {
                lemma2_to64();
                word_bound(d, acc.pos(), delta_bits as nat);
                word_bound(d, acc.pos() + delta_bits as nat, 6);
                if !next.ok {
                    scale_error_stays(d, before, p, delta_bits as nat, (i + 1) as nat, count as nat);
                }
            }
            let delta: u32 = acc.read(delta_bits as u32);
            if delta == top {
                value = acc.read(6) as u8;
            } else {
                let candidate: i32 = value as i32 + delta as i32 - (top / 2) as i32;
                if candidate < 0 || candidate >= 64 {
                    return Err(HcaError::UnpackError("invalid scalefactor"));
                }
                value = candidate as u8;
            }
            channel.scale_factors[i] = value;
            i += 1;
        }
        acc.sync(br);
        proof {
            if count == 0 {
                assert(scale_deltas(d, before, p, delta_bits as nat, 0) == scale_deltas(
                    d,
                    before,
                    p,
                    delta_bits as nat,
                    1,
                ));
            }
        }
        Ok(())
    }
}

proof fn scale_error_stays(d: Seq<u8>, held: Seq<u8>, p: nat, bits: nat, n: nat, m: nat)
    requires
        !scale_deltas(d, held, p, bits, n).ok,
        n <= m,
    ensures
        scale_deltas(d, held, p, bits, m) == scale_deltas(d, held, p, bits, n),
    decreases m,
{
    if n < m {
        if m > 1 {
            scale_error_stays(d, held, p, bits, n, (m - 1) as nat);
        }
    }
}

/// Whether reading a channel ended as it should.
pub open spec fn unpacked_as(
    r: Result<(), HcaError>,
    u: Unpacked,
    c: ChannelModel,
    pos: nat,
) -> bool {
    &&& match u.error {
        Some(e) => r == Err::<(), HcaError>(e),
        None => r is Ok,
    }
    &&& c == u.c
    &&& pos == u.pos
}

/// The high-frequency scales that stand behind the coded ones.
pub open spec fn extra_scales(h: HeaderModel, t: ChannelType) -> nat {
    if t == ChannelType::StereoSecondary || h.version <= HCA_VERSION_200 {
        0
    } else {
        h.hfr_group_count as nat
    }
}

/// Copies the extra scales to the end, one place up: the last one is the scale
/// behind those that were read, which counts as zero.
pub open spec fn scales_moved(sf: Seq<u8>, count: nat, extra: nat) -> Seq<u8> {
    Seq::new(
        128,
        |k: int|
            if k < 128 - extra {
                sf[k]
            } else if k == 127 {
                0
            } else {
                sf[count - (127 - k)]
            },
    )
}

/// The scale factors of a channel.
pub open spec fn scale_factors_of(h: HeaderModel, d: Seq<u8>, c: ChannelModel, p: nat) -> Unpacked {
    let bits = peeked(d, p, 3);
    let extra = extra_scales(h, c.channel_type);
    let count = c.coded_count + extra;
    if count > 128 {
        Unpacked { error: Some(HcaError::UnpackError("invalid coded count")), c, pos: p + 3 }
    } else {
        let u = scale_values(d, c, p + 3, count, bits);
        if u.error is Some {
            u
        } else {
            Unpacked {
                c: ChannelModel {
                    scale_factors: scales_moved(u.c.scale_factors, count, extra),
                    ..u.c
                },
                ..u
            }
        }
    }
}

/// Whether the scales of a channel leave room behind them.
pub open spec fn scales_have_room(h: HeaderModel, c: ChannelModel) -> bool {
    extra_scales(h, c.channel_type) > 0 ==> c.coded_count + h.hfr_group_count != 128
}

/// Reads the scale factors of a channel.
pub(crate) fn unpack_scale_factors(
    channel: &mut StChannel,
    br: &mut BitReader,
    hfr_group_count: u32,
    version: u32,
    Ghost(h): Ghost<HeaderModel>,
) -> (r: Result<(), HcaError>)
    requires
        h.hfr_group_count == hfr_group_count,
        h.version == version,
        old(channel).coded_count <= 128,
        scales_have_room(h, old(channel)@),
        countable(old(br).bytes().len()),
        old(br).pos() <= 0x800_0000,
    ensures
        unpacked_as(
            r,
            scale_factors_of(h, old(br).bytes(), old(channel)@, old(br).pos()),
            final(channel)@,
            final(br).pos(),
        ),
        final(br).bytes() == old(br).bytes(),
        final(br).pos() <= old(br).pos() + 1510,
{
    let ghost d = br.bytes();
    let ghost p = br.pos();
    let ghost c0 = channel@;
    proof {
        lemma2_to64();
        peeked_bound(d, p, 3);
    }
    let delta_bits: u8 = br.read(3) as u8;
    let wide: u64 = if channel.channel_type == ChannelType::StereoSecondary || version
        <= HCA_VERSION_200 {
        0
    } else {
        hfr_group_count as u64
    };
    if channel.coded_count as u64 + wide > 128 {
        return Err(HcaError::UnpackError("invalid coded count"));
    }
    let extra: usize = wide as usize;
    let count: usize = channel.coded_count + extra;
    ClHca::unpack_scale_factor_values(channel, br, count, delta_bits)?;
    let ghost u = scale_values(d, c0, p + 3, count as nat, delta_bits as nat);
    let ghost sf = channel.scale_factors@;
    let mut i: usize = 0;
    while i < extra
        invariant
            i <= extra <= count <= 128,
            extra > 0 ==> count < 128,
            sf.len() == 128,
            channel@ == (ChannelModel { scale_factors: channel.scale_factors@, ..u.c }),
            channel.scale_factors@ =~= scales_moved(sf, count as nat, i as nat),
        decreases extra - i,
    {
        let v: u8 = if i == 0 { 0 } else { channel.scale_factors[count - i] };
        channel.scale_factors[127 - i] = v;
        i += 1;
    }
    Ok(())
}

/// The intensities of a secondary channel in older versions: four bits each;
/// the first one stops the rest where it is fifteen, and they are zero.
pub open spec fn legacy_intensity(d: Seq<u8>, c: ChannelModel, p: nat) -> Unpacked {
    let first = peeked(d, p, 4) as u8;
    if first >= 15 {
        Unpacked {
            error: None,
            c: ChannelModel { intensity: zeros(8).update(0, first), ..c },
            pos: p,
        }
    } else {
        Unpacked {
            error: None,
            c: ChannelModel {
                intensity: Seq::new(8, |i: int| peeked(d, (p + 4 * i) as nat, 4) as u8),
                ..c
            },
            pos: p + 32,
        }
    }
}

fn unpack_legacy_intensity(channel: &mut StChannel, br: &mut BitReader)
    requires
        countable(old(br).bytes().len()),
        old(br).pos() <= 0x1000_0000,
    ensures
        unpacked_as(
            Ok(()),
            legacy_intensity(old(br).bytes(), old(channel)@, old(br).pos()),
            final(channel)@,
            final(br).pos(),
        ),
        final(br).bytes() == old(br).bytes(),
{
    let ghost d = br.bytes();
    let ghost p = br.pos();
    proof {
        lemma2_to64();
        peeked_bound(d, p, 4);
    }
    let value: u8 = br.peek(4) as u8;
    channel.intensity = [0; 8];
    channel.intensity[0] = value;
    if value >= 15 {
        assert(channel.intensity@ =~= zeros(8).update(0, value));
        return;
    }
    br.skip(4);
    let mut i: usize = 1;
    while i < 8
        invariant
            1 <= i <= 8,
            countable(d.len()),
            br.bytes() == d,
            br.pos() == p + 4 * i,
            p <= 0x1000_0000,
            channel.intensity@.len() == 8,
            forall|j: int|
                0 <= j < i ==> #[trigger] channel.intensity@[j] == peeked(d, (p + 4 * j) as nat, 4) as u8,
            channel@ == (ChannelModel { intensity: channel.intensity@, ..old(channel)@ }),
        decreases 8 - i,
    {
        proof {
            lemma2_to64();
            peeked_bound(d, br.pos(), 4);
        }
        let v: u8 = br.read(4) as u8;
        channel.intensity[i] = v;
        i += 1;
    }
    assert(channel.intensity@ =~= legacy_intensity(d, old(channel)@, p).c.intensity);
}

/// An intensity from a difference: the highest difference announces four plain
/// bits; others count in eight bits and must stay within fifteen.
pub open spec fn intensity_step(d: Seq<u8>, p: nat, value: u8, delta: u8, top: u8) -> Result<
    (u8, nat),
    HcaError,
> {
    if delta == top {
        Ok((peeked(d, p, 4) as u8, p + 4))
    } else {
        let v = (value - top / 2 + delta) % 256;
        if v > 15 {
            Err(HcaError::UnpackError("invalid intensity"))
        } else {
            Ok((v as u8, p))
        }
    }
}

/// Decodes an intensity from a difference.
pub fn decode_intensity_delta(br: &mut BitReader, value: u8, delta: u8, maximum_delta: u8) -> (r:
    Result<u8, HcaError>)
    requires
        countable(old(br).bytes().len()),
        old(br).pos() + 4 <= usize::MAX,
    ensures
        match intensity_step(old(br).bytes(), old(br).pos(), value, delta, maximum_delta) {
            Ok((v, q)) => r == Ok::<u8, HcaError>(v) && final(br).pos() == q,
            Err(e) => r == Err::<u8, HcaError>(e) && final(br).pos() == old(br).pos(),
        },
        final(br).bytes() == old(br).bytes(),
{
    if delta == maximum_delta {
        proof {
            lemma2_to64();
            peeked_bound(br.bytes(), br.pos(), 4);
        }
        return Ok(br.read(4) as u8);
    }
    let v: u32 = (256 + value as u32 - (maximum_delta / 2) as u32 + delta as u32) % 256;
    if v > 15 {
        return Err(HcaError::UnpackError("invalid intensity"));
    }
    Ok(v as u8)
}

/// Reading intensities one after the other.
pub struct IntensityState {
    pub error: Option<HcaError>,
    pub values: Seq<u8>,
    pub value: u8,
    pub pos: nat,
}

/// The first `n` intensities stored by differences of `bits + 1` bits.
pub open spec fn intensity_deltas(
    d: Seq<u8>,
    start: IntensityState,
    bits: nat,
    top: u8,
    n: nat,
) -> IntensityState
    decreases n,
{
    if n <= 1 {
        start
    } else {
        let s = intensity_deltas(d, start, bits, top, (n - 1) as nat);
        if s.error is Some {
            s
        } else {
            let delta = peeked(d, s.pos, bits + 1) as u8;
            match intensity_step(d, s.pos + bits + 1, s.value, delta, top) {
                Err(e) => IntensityState { error: Some(e), pos: s.pos + bits + 1, ..s },
                Ok((v, q)) => IntensityState {
                    error: None,
                    values: s.values.update(n - 1, v),
                    value: v,
                    pos: q,
                },
            }
        }
    }
}

/// The highest difference of a width.
pub open spec fn top_delta(bits: nat) -> u8 {
    if bits == 0 {
        1
    } else if bits == 1 {
        3
    } else {
        7
    }
}

/// The intensities of a secondary channel: all seven where the first is
/// fifteen, plain where the width is three, by differences else.
pub open spec fn delta_intensity(d: Seq<u8>, c: ChannelModel, p: nat) -> Unpacked {
    let first = peeked(d, p, 4) as u8;
    let bits = peeked(d, p + 4, 2);
    if first >= 15 {
        Unpacked {
            error: None,
            c: ChannelModel { intensity: Seq::new(8, |i: int| 7u8), ..c },
            pos: p + 4,
        }
    } else if bits == 3 {
        Unpacked {
            error: None,
            c: ChannelModel {
                intensity: Seq::new(
                    8,
                    |i: int| if i == 0 { first } else { peeked(d, (p + 2 + 4 * i) as nat, 4) as u8 },
                ),
                ..c
            },
            pos: p + 34,
        }
    } else {
        let start = IntensityState {
            error: None,
            values: c.intensity.update(0, first),
            value: first,
            pos: p + 6,
        };
        let s = intensity_deltas(d, start, bits, top_delta(bits), 8);
        Unpacked {
            error: s.error,
            c: ChannelModel { intensity: s.values, ..c },
            pos: s.pos,
        }
    }
}

impl ClHca {
    /// Reads the intensities of a secondary channel.
    pub fn unpack_delta_intensity(channel: &mut StChannel, br: &mut BitReader) -> (r: Result<
        (),
        HcaError,
    >)
        requires
            countable(old(br).bytes().len()),
            old(br).pos() <= 0x1000_0000,
        ensures
            unpacked_as(
                r,
                delta_intensity(old(br).bytes(), old(channel)@, old(br).pos()),
                final(channel)@,
                final(br).pos(),
            ),
            final(br).bytes() == old(br).bytes(),
            final(br).pos() <= old(br).pos() + 100,
    {
        let ghost d = br.bytes();
        let ghost p = br.pos();
        let ghost before = channel.intensity@;
        proof {
            lemma2_to64();
            peeked_bound(d, p, 4);
            peeked_bound(d, p + 4, 2);
        }
        let mut value: u8 = br.peek(4) as u8;
        if value >= 15 {
            br.skip(4);
            channel.intensity = [7; 8];
            assert(channel.intensity@ =~= Seq::new(8, |i: int| 7u8));
            return Ok(());
        }
        br.skip(4);
        let delta_bits: u8 = br.read(2) as u8;
        channel.intensity[0] = value;
        if delta_bits == 3 {
            let mut i: usize = 1;
            while i < 8
                invariant
                    1 <= i <= 8,
                    countable(d.len()),
                    br.bytes() == d,
                    br.pos() == p + 2 + 4 * i,
                    p <= 0x1000_0000,
                    channel.intensity@.len() == 8,
                    channel.intensity@[0] == value,
                    forall|j: int|
                        1 <= j < i ==> #[trigger] channel.intensity@[j] == peeked(
                            d,
                            (p + 2 + 4 * j) as nat,
                            4,
                        ) as u8,
                    channel@ == (ChannelModel { intensity: channel.intensity@, ..old(channel)@ }),
                decreases 8 - i,
            {
                proof {
                    lemma2_to64();
                    peeked_bound(d, br.pos(), 4);
                }
                let v: u8 = br.read(4) as u8;
                channel.intensity[i] = v;
                i += 1;
            }
            assert(channel.intensity@ =~= delta_intensity(d, old(channel)@, p).c.intensity);
            return Ok(());
        }
        let maximum_delta: u8 = match delta_bits {
            0 => 1,
            1 => 3,
            _ => 7,
        };
        let ghost start = IntensityState {
            error: None,
            values: before.update(0, value),
            value,
            pos: p + 6,
        };
        let mut i: usize = 1;
        assert(channel.intensity@ =~= start.values);
        while i < 8
            invariant
                1 <= i <= 8,
                delta_bits <= 2,
                maximum_delta == top_delta(delta_bits as nat),
                countable(d.len()),
                br.bytes() == d,
                d == old(br).bytes(),
                p == old(br).pos(),
                p <= 0x1000_0000,
                ({
                    let s = intensity_deltas(d, start, delta_bits as nat, maximum_delta, i as nat);
                    &&& s.error is None
                    &&& s.values == channel.intensity@
                    &&& s.value == value
                    &&& s.pos == br.pos()
                    &&& s.pos <= p + 6 + 7 * i
                }),
                ({
                    let u = delta_intensity(d, old(channel)@, p);
                    let s = intensity_deltas(d, start, delta_bits as nat, maximum_delta, 8);
                    u.error == s.error && u.c.intensity == s.values && u.pos == s.pos
                }),
                channel@ == (ChannelModel { intensity: channel.intensity@, ..old(channel)@ }),
            decreases 8 - i,
        {
            let ghost next = intensity_deltas(d, start, delta_bits as nat, maximum_delta, (i + 1) as nat);
            proof {
                lemma2_to64();
                peeked_bound(d, br.pos(), delta_bits as nat + 1);
                if next.error is Some {
                    intensity_error_stays(
                        d,
                        start,
                        delta_bits as nat,
                        maximum_delta,
                        (i + 1) as nat,
                        8,
                    );
                }
            }
            let delta: u8 = br.read(delta_bits as usize + 1) as u8;
            value = decode_intensity_delta(br, value, delta, maximum_delta)?;
            channel.intensity[i] = value;
            i += 1;
        }
        Ok(())
    }
}

proof fn intensity_error_stays(
    d: Seq<u8>,
    start: IntensityState,
    bits: nat,
    top: u8,
    n: nat,
    m: nat,
)
    requires
        intensity_deltas(d, start, bits, top, n).error is Some,
        n <= m,
    ensures
        intensity_deltas(d, start, bits, top, m) == intensity_deltas(d, start, bits, top, n),
    decreases m,
{
    if n < m && m > 1 {
        intensity_error_stays(d, start, bits, top, n, (m - 1) as nat);
    }
}

/// The high-frequency scales of older versions, of six bits each, at the end
/// of the scale factors.
pub open spec fn hfr_scales(d: Seq<u8>, c: ChannelModel, p: nat, count: nat) -> Unpacked {
    Unpacked {
        error: None,
        c: ChannelModel {
            scale_factors: Seq::new(
                128,
                |k: int|
                    if k >= 128 - count {
                        peeked(d, (p + 6 * (k - (128 - count))) as nat, 6) as u8
                    } else {
                        c.scale_factors[k]
                    },
            ),
            ..c
        },
        pos: p + 6 * count,
    }
}

fn unpack_hfr_scales(channel: &mut StChannel, br: &mut BitReader, count: usize)
    requires
        count <= 128,
        countable(old(br).bytes().len()),
        old(br).pos() <= 0x1000_0000,
    ensures
        unpacked_as(
            Ok(()),
            hfr_scales(old(br).bytes(), old(channel)@, old(br).pos(), count as nat),
            final(channel)@,
            final(br).pos(),
        ),
        final(br).bytes() == old(br).bytes(),
{
    let ghost d = br.bytes();
    let ghost p = br.pos();
    let ghost before = channel.scale_factors@;
    let first: usize = 128 - count;
    let mut i: usize = 0;
    while i < count
        invariant
            i <= count <= 128,
            first == 128 - count,
            countable(d.len()),
            br.bytes() == d,
            br.pos() == p + 6 * i,
            p <= 0x1000_0000,
            before.len() == 128,
            channel.scale_factors@ =~= Seq::new(
                128,
                |k: int|
                    if first <= k < first + i {
                        peeked(d, (p + 6 * (k - first)) as nat, 6) as u8
                    } else {
                        before[k]
                    },
            ),
            channel@ == (ChannelModel { scale_factors: channel.scale_factors@, ..old(channel)@ }),
        decreases count - i,
    {
        proof {
            lemma2_to64();
            peeked_bound(d, br.pos(), 6);
        }
        let v: u8 = br.read(6) as u8;
        channel.scale_factors[first + i] = v;
        i += 1;
    }
    assert(channel.scale_factors@ =~= hfr_scales(d, old(channel)@, p, count as nat).c.scale_factors);
}

/// The intensities of a secondary channel, or the high-frequency scales of
/// another one in older versions.
pub open spec fn intensity_of(h: HeaderModel, d: Seq<u8>, c: ChannelModel, p: nat) -> Unpacked {
    if c.channel_type == ChannelType::StereoSecondary {
        if h.version <= HCA_VERSION_200 {
            legacy_intensity(d, c, p)
        } else {
            delta_intensity(d, c, p)
        }
    } else if h.version <= HCA_VERSION_200 {
        hfr_scales(d, c, p, h.hfr_group_count as nat)
    } else {
        Unpacked { error: None, c, pos: p }
    }
}

pub(crate) fn unpack_intensity(
    channel: &mut StChannel,
    br: &mut BitReader,
    hfr_group_count: u32,
    version: u32,
    Ghost(h): Ghost<HeaderModel>,
) -> (r: Result<(), HcaError>)
    requires
        h.hfr_group_count == hfr_group_count,
        h.version == version,
        version <= HCA_VERSION_200 ==> hfr_group_count <= 128,
        countable(old(br).bytes().len()),
        old(br).pos() <= 0x1000_0000,
    ensures
        unpacked_as(
            r,
            intensity_of(h, old(br).bytes(), old(channel)@, old(br).pos()),
            final(channel)@,
            final(br).pos(),
        ),
        final(br).bytes() == old(br).bytes(),
        final(br).pos() <= old(br).pos() + 768,
{
    if channel.channel_type == ChannelType::StereoSecondary {
        if version <= HCA_VERSION_200 {
            unpack_legacy_intensity(channel, br);
        } else {
            ClHca::unpack_delta_intensity(channel, br)?;
        }
    } else if version <= HCA_VERSION_200 {
        unpack_hfr_scales(channel, br, hfr_group_count as usize);
    }
    Ok(())
}

/// The place of a band on the noise curve.
pub open spec fn curve_position(scale_factor: u8, ath: u8, packed_noise: u32, band: int) -> int {
    ath + wrap32(packed_noise + band) / 256 + 1 - (5 * scale_factor) / 2
}

/// The resolution of a band: none for the scale factor zero, else by its place
/// on the noise curve, within limits.
pub open spec fn resolution_of(
    scale_factor: u8,
    ath: u8,
    packed_noise: u32,
    band: int,
    minimum: u8,
    maximum: u8,
) -> u8 {
    if scale_factor == 0 {
        0
    } else {
        let at = curve_position(scale_factor, ath, packed_noise, band);
        let r = if at < 0 {
            15
        } else if at <= 65 {
            INVERT_TABLE[at]
        } else {
            0
        };
        if r < minimum {
            minimum
        } else if r > maximum {
            maximum
        } else {
            r
        }
    }
}

/// The resolution of a band from its scale factor.
pub fn resolution_for_scale_factor(
    scale_factor: u8,
    ath: u8,
    packed_noise_level: u32,
    band: usize,
    minimum: u8,
    maximum: u8,
) -> (r: u8)
    requires
        minimum <= maximum,
        band <= u32::MAX,
    ensures
        r == resolution_of(
            scale_factor,
            ath,
            packed_noise_level,
            band as int,
            minimum,
            maximum,
        ),
        r <= 15 || r <= maximum,
{
    if scale_factor == 0 {
        return 0;
    }
    let packed: u32 = crate::acb::utf::wrapping_sum(packed_noise_level, band as u32);
    let noise_level: i32 = ath as i32 + (packed / 256) as i32;
    let curve_position: i32 = noise_level + 1 - ((5 * scale_factor as i32) / 2);
    let resolution: u8 = if curve_position < 0 {
        15
    } else if curve_position <= 65 {
        INVERT_TABLE[curve_position as usize]
    } else {
        0
    };
    if resolution < minimum {
        minimum
    } else if resolution > maximum {
        maximum
    } else {
        resolution
    }
}

/// The bands of a channel by whether they have a resolution: those without one
/// from the front, those with one from the back.
pub struct NoiseState {
    pub noises: Seq<u8>,
    pub noise_count: nat,
    pub valid_count: nat,
}

/// The resolutions of a channel's first `n` bands.
pub open spec fn resolutions(
    h: HeaderModel,
    ath: Seq<u8>,
    noise: u32,
    c: ChannelModel,
    n: nat,
) -> Seq<u8> {
    Seq::new(
        n,
        |i: int|
            resolution_of(
                c.scale_factors[i],
                ath[i],
                noise,
                i,
                h.min_resolution as u8,
                h.max_resolution as u8,
            ),
    )
}

/// The bands of a channel sorted by whether they have a resolution, after the
/// first `n`; bands with a zero scale factor are left out.
pub open spec fn sorted_bands(c: ChannelModel, res: Seq<u8>, n: nat) -> NoiseState
    decreases n,
{
    if n == 0 {
        NoiseState { noises: c.noises, noise_count: 0, valid_count: 0 }
    } else {
        let i = n - 1;
        let s = sorted_bands(c, res, i as nat);
        if c.scale_factors[i] == 0 {
            s
        } else if res[i] == 0 {
            NoiseState {
                noises: s.noises.update(s.noise_count as int, i as u8),
                noise_count: s.noise_count + 1,
                ..s
            }
        } else {
            NoiseState {
                noises: s.noises.update(127 - s.valid_count, i as u8),
                valid_count: s.valid_count + 1,
                ..s
            }
        }
    }
}

/// A channel with its resolutions; bands that are not coded have none.
pub open spec fn resolved(h: HeaderModel, ath: Seq<u8>, noise: u32, c: ChannelModel) -> ChannelModel {
    let res = resolutions(h, ath, noise, c, c.coded_count);
    let s = sorted_bands(c, res, c.coded_count);
    ChannelModel {
        noises: s.noises,
        noise_count: s.noise_count,
        valid_count: s.valid_count,
        resolution: Seq::new(128, |i: int| if i < c.coded_count { res[i] } else { 0 }),
        ..c
    }
}

/// Works out the resolution of each band of a channel.
pub(crate) fn calculate_resolution(
    channel: &mut StChannel,
    ath_curve: &[u8; 128],
    packed_noise_level: u32,
    min_resolution: u8,
    max_resolution: u8,
    Ghost(h): Ghost<HeaderModel>,
)
    requires
        old(channel).coded_count <= 128,
        h.min_resolution == min_resolution,
        h.max_resolution == max_resolution,
        min_resolution <= max_resolution <= 15,
    ensures
        final(channel)@ == resolved(h, ath_curve@, packed_noise_level, old(channel)@),
        forall|i: int| 0 <= i < 128 ==> #[trigger] final(channel).resolution@[i] <= 15,
{
    let ghost c = channel@;
    let ghost ath = ath_curve@;
    let count: usize = channel.coded_count;
    let ghost res = resolutions(h, ath, packed_noise_level, c, count as nat);
    let mut noise_count: usize = 0;
    let mut valid_count: usize = 0;
    let mut i: usize = 0;
    while i < count
        invariant
            i <= count <= 128,
            count == c.coded_count,
            c == old(channel)@,
            ath == ath_curve@,
            h.min_resolution == min_resolution,
            h.max_resolution == max_resolution,
            min_resolution <= max_resolution <= 15,
            res == resolutions(h, ath, packed_noise_level, c, count as nat),
            noise_count + valid_count <= i,
            ({
                let s = sorted_bands(c, res, i as nat);
                &&& s.noises == channel.noises@
                &&& s.noise_count == noise_count
                &&& s.valid_count == valid_count
            }),
            channel.resolution@.len() == 128,
            forall|j: int| 0 <= j < i ==> #[trigger] channel.resolution@[j] == res[j],
            forall|j: int| 0 <= j < i ==> #[trigger] channel.resolution@[j] <= 15,
            channel@ == (ChannelModel {
                noises: channel.noises@,
                resolution: channel.resolution@,
                ..c
            }),
        decreases count - i,
    {
        let scalefactor: u8 = channel.scale_factors[i];
        assert(scalefactor == c.scale_factors[i as int]);
        let new_resolution: u8 = resolution_for_scale_factor(
            scalefactor,
            ath_curve[i],
            packed_noise_level,
            i,
            min_resolution,
            max_resolution,
        );
        assert(new_resolution == res[i as int]);
        if scalefactor > 0 {
            if new_resolution == 0 {
                channel.noises[noise_count] = i as u8;
                noise_count += 1;
            } else {
                channel.noises[127 - valid_count] = i as u8;
                valid_count += 1;
            }
        }
        channel.resolution[i] = new_resolution;
        i += 1;
    }
    channel.noise_count = noise_count;
    channel.valid_count = valid_count;
    while i < 128
        invariant
            count <= i <= 128,
            c.coded_count == count,
            channel.resolution@.len() == 128,
            res.len() == count,
            forall|j: int| 0 <= j < count ==> #[trigger] channel.resolution@[j] == res[j],
            forall|j: int| count <= j < i ==> #[trigger] channel.resolution@[j] == 0,
            forall|j: int| 0 <= j < i ==> #[trigger] channel.resolution@[j] <= 15,
            ({
                let s = sorted_bands(c, res, count as nat);
                &&& channel@ == (ChannelModel {
                    noises: s.noises,
                    noise_count: s.noise_count,
                    valid_count: s.valid_count,
                    resolution: channel.resolution@,
                    ..c
                })
            }),
        decreases 128 - i,
    {
        channel.resolution[i] = 0;
        i += 1;
    }
    assert(channel.resolution@ =~= resolved(h, ath, packed_noise_level, c).resolution);
}

/// The bits that a code takes: those of the short codes below a threshold, one
/// more above.
pub open spec fn used_bits(res: int, code: nat) -> nat {
    (DEQ_USED_BASE[res] + if code >= DEQ_USED_THRESH[res] { 1int } else { 0 }) as nat
}

/// The quantized value of a code.
pub open spec fn code_value(res: int, code: nat) -> i32 {
    if res <= 7 {
        READ_VAL_TABLE[res * 16 + code] as i32
    } else {
        ((1 - 2 * (code % 2)) * (code / 2)) as i32
    }
}

/// Reading quantized values: those read so far over what was there, and the
/// position.
pub struct CodeState {
    pub codes: Seq<i32>,
    pub pos: nat,
}

/// The first `n` quantized values of a channel's subframe.
pub open spec fn codes_of(d: Seq<u8>, res: Seq<u8>, held: Seq<i32>, p: nat, n: nat) -> CodeState
    decreases n,
{
    if n == 0 {
        CodeState { codes: held, pos: p }
    } else {
        let s = codes_of(d, res, held, p, (n - 1) as nat);
        let r = res[n - 1] as int;
        let code = word(d, s.pos, MAX_BIT_TABLE[r] as nat);
        CodeState {
            codes: s.codes.update(n - 1, code_value(r, code)),
            pos: s.pos + used_bits(r, code),
        }
    }
}

/// A channel with the quantized values of a subframe; bands that are not coded
/// are zero.
pub open spec fn dequantized(d: Seq<u8>, c: ChannelModel, p: nat, subframe: int) -> (
    ChannelModel,
    nat,
) {
    let s = codes_of(d, c.resolution, c.codes[subframe], p, c.coded_count);
    let row = Seq::new(128, |i: int| if i < c.coded_count { s.codes[i] } else { 0i32 });
    (ChannelModel { codes: c.codes.update(subframe, row), ..c }, s.pos)
}

/// Reads the quantized values of a channel's subframe.
pub(crate) fn dequantize_coefficients(channel: &mut StChannel, br: &mut BitReader, subframe: usize)
    requires
        subframe < 8,
        old(channel).coded_count <= 128,
        forall|i: int| 0 <= i < 128 ==> #[trigger] old(channel).resolution@[i] <= 15,
        countable(old(br).bytes().len()),
        old(br).pos() <= 0x1000_0000,
    ensures
        ({
            let (c, q) = dequantized(old(br).bytes(), old(channel)@, old(br).pos(), subframe as int);
            final(channel)@ == c && final(br).pos() == q
        }),
        final(br).bytes() == old(br).bytes(),
        final(br).pos() <= old(br).pos() + 1536,
{
    let ghost d = br.bytes();
    let ghost p = br.pos();
    let ghost c = channel@;
    let ghost before = channel.codes@[subframe as int]@;
    let ghost old_rows = rows(channel.codes);
    assert(old_rows[subframe as int] == before);
    let count: usize = channel.coded_count;
    let mut row: [i32; 128] = channel.codes[subframe];
    let mut acc = br.acc();
    let mut i: usize = 0;
    while i < count
        invariant
            i <= count <= 128,
            count == channel.coded_count,
            forall|j: int| 0 <= j < 128 ==> #[trigger] channel.resolution@[j] <= 15,
            acc.wf(),
            acc.bytes() == d,
            p <= 0x1000_0000,
            ({
                let s = codes_of(d, channel.resolution@, before, p, i as nat);
                &&& s.codes == row@
                &&& s.pos == acc.pos()
                &&& s.pos <= p + 12 * i
            }),
        decreases count - i,
    {
        let res: u8 = channel.resolution[i];
        let bits: u32 = MAX_BIT_TABLE[res as usize] as u32;
        proof {
            width_bounds(res as int);
            lemma2_to64();
            word_bound(d, acc.pos(), bits as nat);
            if bits < 16 {
                lemma_pow2_strictly_increases(bits as nat, 16);
            }
            if res <= 7 && bits < 4 {
                lemma_pow2_strictly_increases(bits as nat, 4);
            }
        }
        let ghost at = acc.pos();
        let code: u32 = if bits == 0 { 0 } else { acc.peek(bits) };
        assert(code == word(d, at, bits as nat));
        let extra: u32 = if code >= DEQ_USED_THRESH[res as usize] as u32 { 1 } else { 0 };
        let used: u32 = DEQ_USED_BASE[res as usize] as u32 + extra;
        let value: i32 = if res <= 7 {
            READ_VAL_TABLE[res as usize * 16 + code as usize] as i32
        } else if code % 2 == 0 {
            (code / 2) as i32
        } else {
            -((code / 2) as i32)
        };
        proof {
            assert(value == code_value(res as int, code as nat)) by {
                if res > 7 {
                    let m = (code / 2) as int;
                    assert((1 - 2 * 0) * m == m && (1 - 2 * 1) * m == -m) by (nonlinear_arith);
                }
            }
        }
        if used > 0 {
            proof {
                acc.loaded_less(bits as nat, used as nat);
            }
            acc.consume(used);
        }
        row[i] = value;
        i += 1;
    }
    acc.sync(br);
    let ghost s = codes_of(d, channel.resolution@, before, p, count as nat);
    while i < 128
        invariant
            count <= i <= 128,
            s.codes.len() == 128,
            row@.len() == 128,
            forall|j: int| 0 <= j < count ==> #[trigger] row@[j] == s.codes[j],
            forall|j: int| count <= j < i ==> #[trigger] row@[j] == 0,
        decreases 128 - i,
    {
        row[i] = 0;
        i += 1;
    }
    channel.codes[subframe] = row;
    proof {
        let want = dequantized(d, c, p, subframe as int).0;
        assert(row@ =~= want.codes[subframe as int]);
        assert(rows(channel.codes) =~= want.codes);
    }
}

/// How wide codes are, by resolution.
proof fn width_bounds(res: int)
    requires
        0 <= res <= 15,
    ensures
        MAX_BIT_TABLE[res] <= 12,
        res <= 7 ==> MAX_BIT_TABLE[res] <= 4,
        res == 0 ==> MAX_BIT_TABLE[res] == 0 && DEQ_USED_BASE[res] == 0 && DEQ_USED_THRESH[res] == 1,
        res > 0 ==> MAX_BIT_TABLE[res] == DEQ_USED_BASE[res] + 1,
{
}

} // verus!
