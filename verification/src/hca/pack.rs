//! HCA encoder: the bits of a frame.

use vstd::prelude::*;
use vstd::arithmetic::power2::pow2;
use crate::bytes::{be16, zeros};
use crate::hca::bitreader::{
    write_keeps_others, write_then_read, written, BitWriter,
};
use crate::hca::bits::{bit_at, word};
use crate::hca::budget::{escaped, widest_delta};
use crate::hca::crc::{crc16, crc16_checksum};
use crate::hca::decoder::ChannelType;
use crate::hca::encoder::{
    clamped, ChannelEncodeState, EncodeModel, EncoderModel, HcaEncoder, HcaEncoderError,
};
use crate::hca::tables::{MAX_BIT_TABLE, QUANTIZE_SPECTRUM_BITS, QUANTIZE_SPECTRUM_VALUE};

verus! {

/// A number to be stored in some bits.
pub struct Field {
    pub value: nat,
    pub bits: nat,
}

/// The bits of a list of fields.
pub open spec fn total(f: Seq<Field>) -> nat
    decreases f.len(),
{
    if f.len() == 0 { 0 } else { total(f.drop_last()) + f.last().bits }
}

/// Whether field `k` stands behind the fields before it.
pub open spec fn field_stands(d: Seq<u8>, f: Seq<Field>, k: int) -> bool {
    word(d, total(f.subrange(0, k)), f[k].bits) == f[k].value % pow2(f[k].bits)
}

/// Whether bytes hold fields one after the other, as far as they lie within
/// the bytes, and nothing behind them.
pub open spec fn holds_fields(d: Seq<u8>, f: Seq<Field>) -> bool {
    &&& forall|k: int|
        0 <= k < f.len() && total(f.subrange(0, k + 1)) <= 8 * d.len() ==> #[trigger] field_stands(
            d,
            f,
            k,
        )
    &&& forall|q: nat| total(f) <= q < 8 * d.len() ==> #[trigger] bit_at(d, q) == 0
}

/// The fields of the scale factors of bands `1..n`, stored by differences.
pub open spec fn delta_fields(sf: Seq<u8>, bits: nat, n: nat) -> Seq<Field>
    decreases n,
{
    if n <= 1 {
        Seq::empty()
    } else {
        let rest = delta_fields(sf, bits, (n - 1) as nat);
        let top = (2 * widest_delta(bits) + 1) as nat;
        let d = sf[n - 1] - sf[n - 2];
        if escaped(sf, n - 1, bits) {
            rest.push(Field { value: top, bits }).push(Field { value: sf[n - 1] as nat, bits: 6 })
        } else {
            rest.push(Field { value: (widest_delta(bits) + d) as nat, bits })
        }
    }
}

/// The fields of the scale factors of a channel.
pub open spec fn scale_fields(c: EncodeModel) -> Seq<Field> {
    let width = seq![Field { value: c.delta_bits as nat, bits: 3 }];
    if c.delta_bits == 0 {
        width
    } else if c.delta_bits == 6 {
        width + Seq::new(
            c.coded_count,
            |b: int| Field { value: c.scale_factors[b] as nat, bits: 6 },
        )
    } else {
        width + seq![Field { value: c.scale_factors[0] as nat, bits: 6 }] + delta_fields(
            c.scale_factors,
            c.delta_bits as nat,
            c.coded_count,
        )
    }
}

/// The fields behind the scale factors: intensities of a secondary channel,
/// high-frequency scales of another one.
pub open spec fn side_fields(c: EncodeModel, groups: nat) -> Seq<Field> {
    if c.channel_type == ChannelType::StereoSecondary {
        Seq::new(8, |i: int| Field { value: c.intensity[i] as nat, bits: 4 })
    } else {
        Seq::new(groups, |i: int| Field { value: c.hfr_scales[i] as nat, bits: 6 })
    }
}

/// The magnitude of a number.
pub open spec fn magnitude(v: int) -> nat {
    if v < 0 { (-v) as nat } else { v as nat }
}

/// The fields of one value at a resolution.
pub open spec fn value_fields(resolution: u8, v: i32) -> Seq<Field> {
    if resolution == 0 {
        Seq::empty()
    } else if resolution < 8 {
        let i = clamped(v + 8, 0, 15);
        seq![Field {
            value: QUANTIZE_SPECTRUM_VALUE[resolution as int][i] as nat,
            bits: QUANTIZE_SPECTRUM_BITS[resolution as int][i] as nat,
        }]
    } else {
        let size = seq![Field {
            value: magnitude(v as int),
            bits: (MAX_BIT_TABLE[resolution as int] - 1) as nat,
        }];
        if v == 0 {
            size
        } else {
            size.push(Field { value: if v > 0 { 0 } else { 1 }, bits: 1 })
        }
    }
}

/// The fields of the values of a channel's first `n` bands in a subframe.
pub open spec fn spectra_fields(c: EncodeModel, subframe: int, n: nat) -> Seq<Field>
    decreases n,
{
    if n == 0 {
        Seq::empty()
    } else {
        spectra_fields(c, subframe, (n - 1) as nat) + value_fields(
            c.resolutions[n - 1],
            c.quantized[subframe][n - 1],
        )
    }
}

/// The fields before the channels.
pub open spec fn opening_fields(level: u32, boundary: u32) -> Seq<Field> {
    seq![
        Field { value: 0xFFFF, bits: 16 },
        Field { value: level as nat, bits: 9 },
        Field { value: boundary as nat, bits: 7 },
    ]
}

/// The fields of a frame up to the first `n` channels.
pub open spec fn header_fields(e: EncoderModel, level: u32, boundary: u32, n: nat) -> Seq<Field>
    decreases n,
{
    if n == 0 {
        opening_fields(level, boundary)
    } else {
        header_fields(e, level, boundary, (n - 1) as nat) + scale_fields(e.channel[n - 1])
            + side_fields(e.channel[n - 1], e.hfr_group_count as nat)
    }
}

/// The fields of a subframe of the first `n` channels.
pub open spec fn subframe_fields(e: EncoderModel, subframe: int, n: nat) -> Seq<Field>
    decreases n,
{
    if n == 0 {
        Seq::empty()
    } else {
        let c = e.channel[n - 1];
        subframe_fields(e, subframe, (n - 1) as nat) + spectra_fields(c, subframe, c.coded_count)
    }
}

/// The fields of the first `n` subframes.
pub open spec fn values_fields(e: EncoderModel, n: nat) -> Seq<Field>
    decreases n,
{
    if n == 0 {
        Seq::empty()
    } else {
        values_fields(e, (n - 1) as nat) + subframe_fields(e, n - 1, e.config.channels as nat)
    }
}

/// All fields of a frame.
pub open spec fn frame_fields(e: EncoderModel, level: u32, boundary: u32) -> Seq<Field> {
    header_fields(e, level, boundary, e.config.channels as nat) + values_fields(e, 8)
}

/// Whether bytes are a frame before encryption: its fields, zero bits up to the
/// last two bytes, and there the checksum.
pub open spec fn is_frame(d: Seq<u8>, e: EncoderModel, level: u32, boundary: u32) -> bool {
    let n = e.frame_size as int;
    let body = d.subrange(0, n - 2);
    &&& d.len() == n
    &&& holds_fields(body, frame_fields(e, level, boundary))
    &&& d.subrange(n - 2, n) == be16(crc16(body))
}

/// The frame as it is stored: every byte looked up in the encryption table
/// where there is a key, then the checksum of what precedes it.
pub open spec fn sealed(plain: Seq<u8>, e: EncoderModel) -> Seq<u8> {
    let n = e.frame_size as int;
    let body = if e.config.encryption_key is Some {
        plain.subrange(0, n - 2).map_values(|b: u8| e.encrypt_table[b as int])
    } else {
        plain.subrange(0, n - 2)
    };
    body + be16(crc16(body))
}

/// The bits of two lists together.
pub proof fn total_sum(f: Seq<Field>, g: Seq<Field>)
    ensures
        total(f + g) == total(f) + total(g),
    decreases g.len(),
{
    if g.len() == 0 {
        assert(f + g =~= f);
    } else {
        total_sum(f, g.drop_last());
        assert((f + g).drop_last() =~= f + g.drop_last());
    }
}

/// The front of a list takes no more bits than the list.
pub proof fn total_front(f: Seq<Field>, k: int)
    requires
        0 <= k <= f.len(),
    ensures
        total(f.subrange(0, k)) <= total(f),
{
    assert(f =~= f.subrange(0, k) + f.subrange(k, f.len() as int));
    total_sum(f.subrange(0, k), f.subrange(k, f.len() as int));
}

/// Appends a field.
fn put_field(w: &mut BitWriter, value: u32, bits: usize, Ghost(f): Ghost<Seq<Field>>)
    requires
        holds_fields(old(w).bytes(), f),
        old(w).pos() == total(f),
        bits <= 32,
        old(w).pos() + bits <= usize::MAX,
    ensures
        holds_fields(
            final(w).bytes(),
            f.push(Field { value: value as nat, bits: bits as nat }),
        ),
        final(w).pos() == total(f.push(Field { value: value as nat, bits: bits as nat })),
        final(w).bytes().len() == old(w).bytes().len(),
        final(w).pos() == old(w).pos() + bits,
{
    let ghost before = w.bytes();
    w.write(value, bits);
    proof {
        field_added(before, w.bytes(), f, value as nat, bits as nat);
    }
}

proof fn field_added(before: Seq<u8>, after: Seq<u8>, f: Seq<Field>, value: nat, bits: nat)
    requires
        holds_fields(before, f),
        written(before, after, total(f), value, bits),
    ensures
        holds_fields(after, f.push(Field { value, bits })),
        total(f.push(Field { value, bits })) == total(f) + bits,
{
    let g = f.push(Field { value, bits });
    assert(g.drop_last() =~= f);
    assert forall|k: int|
        0 <= k < g.len() && total(g.subrange(0, k + 1)) <= 8 * after.len() implies #[trigger] field_stands(
        after,
        g,
        k,
    ) by {
        if k < f.len() {
            assert(g.subrange(0, k + 1) =~= f.subrange(0, k + 1));
            assert(g.subrange(0, k) =~= f.subrange(0, k));
            assert(field_stands(before, f, k));
            total_front(f, k + 1);
            assert(f.subrange(0, k + 1).drop_last() =~= f.subrange(0, k));
            write_keeps_others(
                before,
                after,
                total(f),
                value,
                bits,
                total(f.subrange(0, k)),
                f[k].bits,
            );
        } else {
            assert(g.subrange(0, k) =~= f);
            assert(g.subrange(0, k + 1) =~= g);
            write_then_read(before, after, total(f), value, bits);
        }
    }
    assert forall|q: nat| total(g) <= q < 8 * after.len() implies #[trigger] bit_at(after, q)
        == 0 by {
        assert(bit_at(before, q) == 0);
    }
}

/// Appends the scale factors of a channel.
fn write_scale_factors(w: &mut BitWriter, channel: &ChannelEncodeState, Ghost(f): Ghost<Seq<Field>>)
    requires
        holds_fields(old(w).bytes(), f),
        old(w).pos() == total(f),
        old(w).pos() <= 0x1000_0000,
        channel.coded_count <= 128,
        channel.scale_factor_delta_bits <= 6,
        forall|i: int| 0 <= i < 128 ==> #[trigger] channel.scale_factors@[i] < 64,
    ensures
        holds_fields(final(w).bytes(), f + scale_fields(channel@)),
        final(w).pos() == total(f + scale_fields(channel@)),
        final(w).bytes().len() == old(w).bytes().len(),
        final(w).pos() <= old(w).pos() + 1500,
{
    let ghost c = channel@;
    let ghost sf = channel.scale_factors@;
    let delta_bits: u8 = channel.scale_factor_delta_bits;
    put_field(w, delta_bits as u32, 3, Ghost(f));
    let ghost g = f.push(Field { value: delta_bits as nat, bits: 3 });
    if delta_bits == 0 {
        assert(f + scale_fields(c) =~= g);
        return;
    }
    if delta_bits == 6 {
        let mut band: usize = 0;
        let ghost plain = |n: int|
            Seq::new(n as nat, |b: int| Field { value: sf[b] as nat, bits: 6 });
        assert(g =~= g + plain(0));
        while band < channel.coded_count
            invariant
                band <= channel.coded_count,
                channel.coded_count <= 128,
                sf == channel.scale_factors@,
                plain == (|n: int| Seq::new(n as nat, |b: int| Field { value: sf[b] as nat, bits: 6 })),
                holds_fields(w.bytes(), g + plain(band as int)),
                w.pos() == total(g + plain(band as int)),
                w.bytes().len() == old(w).bytes().len(),
                w.pos() == old(w).pos() + 3 + 6 * band,
                old(w).pos() <= 0x1000_0000,
            decreases channel.coded_count - band,
        {
            put_field(w, channel.scale_factors[band] as u32, 6, Ghost(g + plain(band as int)));
            assert((g + plain(band as int)).push(Field { value: sf[band as int] as nat, bits: 6 })
                =~= g + plain(band + 1));
            band += 1;
        }
        assert(f + scale_fields(c) =~= g + plain(band as int));
        return;
    }
    put_field(w, channel.scale_factors[0] as u32, 6, Ghost(g));
    let ghost h = g.push(Field { value: sf[0] as nat, bits: 6 });
    let widest: i32 = match delta_bits {
        1 => 0,
        2 => 1,
        3 => 3,
        4 => 7,
        _ => 15,
    };
    let ghost bits = delta_bits as nat;
    let mut band: usize = 1;
    assert(h =~= h + delta_fields(sf, bits, 1));
    while band < channel.coded_count
        invariant
            1 <= band,
            band <= channel.coded_count || band == 1,
            channel.coded_count <= 128,
            1 <= delta_bits <= 5,
            bits == delta_bits,
            widest == widest_delta(bits),
            sf == channel.scale_factors@,
            forall|i: int| 0 <= i < 128 ==> #[trigger] sf[i] < 64,
            holds_fields(w.bytes(), h + delta_fields(sf, bits, band as nat)),
            w.pos() == total(h + delta_fields(sf, bits, band as nat)),
            w.bytes().len() == old(w).bytes().len(),
            w.pos() <= old(w).pos() + 9 + 11 * band,
            old(w).pos() <= 0x1000_0000,
        decreases channel.coded_count - band,
    {
        let ghost was = h + delta_fields(sf, bits, band as nat);
        let ghost now = h + delta_fields(sf, bits, (band + 1) as nat);
        let delta: i32 = channel.scale_factors[band] as i32 - channel.scale_factors[band - 1] as i32;
        assert(sf[band as int] < 64 && sf[band - 1] < 64);
        if delta > widest || delta < -widest {
            put_field(w, (2 * widest + 1) as u32, delta_bits as usize, Ghost(was));
            let ghost mid = was.push(Field { value: (2 * widest + 1) as nat, bits });
            put_field(w, channel.scale_factors[band] as u32, 6, Ghost(mid));
            assert(mid.push(Field { value: sf[band as int] as nat, bits: 6 }) =~= now);
        } else {
            put_field(w, (widest + delta) as u32, delta_bits as usize, Ghost(was));
            assert(was.push(Field { value: (widest + delta) as nat, bits }) =~= now);
        }
        band += 1;
    }
    proof {
        if channel.coded_count == 0 {
            assert(delta_fields(sf, bits, 0) =~= delta_fields(sf, bits, 1));
        }
        assert(f + scale_fields(c) =~= h + delta_fields(sf, bits, c.coded_count));
    }
}

/// Appends what stands behind the scale factors of a channel.
fn write_side_fields(
    w: &mut BitWriter,
    channel: &ChannelEncodeState,
    groups: usize,
    Ghost(f): Ghost<Seq<Field>>,
)
    requires
        holds_fields(old(w).bytes(), f),
        old(w).pos() == total(f),
        old(w).pos() <= 0x1000_0000,
        groups <= 8,
    ensures
        holds_fields(final(w).bytes(), f + side_fields(channel@, groups as nat)),
        final(w).pos() == total(f + side_fields(channel@, groups as nat)),
        final(w).bytes().len() == old(w).bytes().len(),
        final(w).pos() <= old(w).pos() + 48,
{
    let ghost c = channel@;
    if channel.channel_type == ChannelType::StereoSecondary {
        let mut i: usize = 0;
        let ghost all = side_fields(c, groups as nat);
        assert(f =~= f + all.subrange(0, 0));
        while i < 8
            invariant
                i <= 8,
                c == channel@,
                all == Seq::new(8, |i: int| Field { value: c.intensity[i] as nat, bits: 4 }),
                holds_fields(w.bytes(), f + all.subrange(0, i as int)),
                w.pos() == total(f + all.subrange(0, i as int)),
                w.bytes().len() == old(w).bytes().len(),
                w.pos() == old(w).pos() + 4 * i,
                old(w).pos() <= 0x1000_0000,
            decreases 8 - i,
        {
            put_field(
                w,
                channel.intensity[i] as u32,
                4,
                Ghost(f + all.subrange(0, i as int)),
            );
            assert((f + all.subrange(0, i as int)).push(all[i as int]) =~= f + all.subrange(
                0,
                i + 1,
            ));
            i += 1;
        }
        assert(all.subrange(0, 8) =~= all);
    } else {
        let mut i: usize = 0;
        let ghost all = side_fields(c, groups as nat);
        assert(f =~= f + all.subrange(0, 0));
        while i < groups
            invariant
                i <= groups <= 8,
                c == channel@,
                all == Seq::new(
                    groups as nat,
                    |i: int| Field { value: c.hfr_scales[i] as nat, bits: 6 },
                ),
                holds_fields(w.bytes(), f + all.subrange(0, i as int)),
                w.pos() == total(f + all.subrange(0, i as int)),
                w.bytes().len() == old(w).bytes().len(),
                w.pos() == old(w).pos() + 6 * i,
                old(w).pos() <= 0x1000_0000,
            decreases groups - i,
        {
            put_field(
                w,
                channel.hfr_scales[i] as u32,
                6,
                Ghost(f + all.subrange(0, i as int)),
            );
            assert((f + all.subrange(0, i as int)).push(all[i as int]) =~= f + all.subrange(
                0,
                i + 1,
            ));
            i += 1;
        }
        assert(all.subrange(0, groups as int) =~= all);
    }
}

/// How wide the codes of small resolutions are.
proof fn code_widths(r: int, i: int)
    requires
        0 <= r < 8,
        0 <= i < 16,
    ensures
        QUANTIZE_SPECTRUM_BITS[r][i] <= 4,
{
    assert(r == 0 || r == 1 || r == 2 || r == 3 || r == 4 || r == 5 || r == 6 || r == 7);
}

/// Appends the values of a channel in a subframe.
fn write_spectra(
    w: &mut BitWriter,
    channel: &ChannelEncodeState,
    subframe: usize,
    Ghost(f): Ghost<Seq<Field>>,
)
    requires
        holds_fields(old(w).bytes(), f),
        old(w).pos() == total(f),
        old(w).pos() <= 0x1000_0000,
        subframe < 8,
        channel.coded_count <= 128,
        forall|b: int| 0 <= b < 128 ==> #[trigger] channel.resolutions@[b] <= 15,
    ensures
        holds_fields(
            final(w).bytes(),
            f + spectra_fields(channel@, subframe as int, channel@.coded_count),
        ),
        final(w).pos() == total(
            f + spectra_fields(channel@, subframe as int, channel@.coded_count),
        ),
        final(w).bytes().len() == old(w).bytes().len(),
        final(w).pos() <= old(w).pos() + 1536,
{
    let ghost c = channel@;
    let ghost sf = subframe as int;
    let mut band: usize = 0;
    assert(f =~= f + spectra_fields(c, sf, 0));
    while band < channel.coded_count
        invariant
            band <= channel.coded_count,
            channel.coded_count <= 128,
            subframe < 8,
            sf == subframe,
            c == channel@,
            forall|b: int| 0 <= b < 128 ==> #[trigger] channel.resolutions@[b] <= 15,
            holds_fields(w.bytes(), f + spectra_fields(c, sf, band as nat)),
            w.pos() == total(f + spectra_fields(c, sf, band as nat)),
            w.bytes().len() == old(w).bytes().len(),
            w.pos() <= old(w).pos() + 12 * band,
            old(w).pos() <= 0x1000_0000,
        decreases channel.coded_count - band,
    {
        let ghost was = f + spectra_fields(c, sf, band as nat);
        let ghost now = f + spectra_fields(c, sf, (band + 1) as nat);
        let resolution: usize = channel.resolutions[band] as usize;
        let v: i32 = channel.quantized_spectra[subframe][band];
        assert(c.quantized[sf][band as int] == v);
        let ghost more = value_fields(resolution as u8, v);
        assert(now =~= was + more);
        if resolution == 0 {
            assert(now =~= was);
        } else if resolution < 8 {
            let wide: i64 = v as i64 + 8;
            let index: usize = if wide < 0 {
                0
            } else if wide > 15 {
                15
            } else {
                wide as usize
            };
            proof {
                code_widths(resolution as int, index as int);
            }
            let bits: usize = QUANTIZE_SPECTRUM_BITS[resolution][index] as usize;
            let value: u32 = QUANTIZE_SPECTRUM_VALUE[resolution][index];
            put_field(w, value, bits, Ghost(was));
            assert(was.push(Field { value: value as nat, bits: bits as nat }) =~= now);
        } else {
            let bits: usize = MAX_BIT_TABLE[resolution] as usize - 1;
            let size: u32 = if v < 0 { (-(v as i64)) as u32 } else { v as u32 };
            put_field(w, size, bits, Ghost(was));
            let ghost mid = was.push(Field { value: size as nat, bits: bits as nat });
            if v != 0 {
                let sign: u32 = if v > 0 { 0 } else { 1 };
                put_field(w, sign, 1, Ghost(mid));
                assert(mid.push(Field { value: sign as nat, bits: 1 }) =~= now);
            } else {
                assert(mid =~= now);
            }
        }
        band += 1;
    }
}

/// Whether the numbers of a channel can be packed.
pub open spec fn packable(c: EncodeModel) -> bool {
    &&& c.delta_bits <= 6
    &&& c.coded_count <= 128
    &&& forall|i: int| 0 <= i < 128 ==> #[trigger] c.scale_factors[i] < 64
    &&& forall|b: int| 0 <= b < 128 ==> #[trigger] c.resolutions[b] <= 15
}

/// Whether the numbers of all channels can be packed.
pub open spec fn all_packable(e: EncoderModel) -> bool {
    forall|i: int| 0 <= i < e.config.channels ==> packable(#[trigger] e.channel[i])
}

impl HcaEncoder {
    /// Packs the scale factors, the side information and the values of all
    /// channels into a frame with its checksum. Fails where they take more
    /// than the frame has.
    pub fn pack_frame(&self, acceptable_noise_level: u32, evaluation_boundary: u32) -> (r: Result<
        Vec<u8>,
        HcaEncoderError,
    >)
        requires
            self.wf(),
            all_packable(self@),
        ensures
            ({
                let f = frame_fields(self@, acceptable_noise_level, evaluation_boundary);
                if total(f) <= 8 * (self@.frame_size - 2) {
                    r is Ok && is_frame(
                        r->Ok_0@,
                        self@,
                        acceptable_noise_level,
                        evaluation_boundary,
                    )
                } else {
                    r == Err::<Vec<u8>, HcaEncoderError>(HcaEncoderError::FrameTooLarge)
                }
            }),
    {
        let ghost e = self@;
        let ghost level = acceptable_noise_level;
        let ghost boundary = evaluation_boundary;
        let size: usize = self.frame_size as usize;
        let mut bits = BitWriter::new(size - 2);
        let ghost none = Seq::<Field>::empty();
        proof {
            blank_holds(bits.bytes(), (size - 2) as nat);
        }
        put_field(&mut bits, 0xFFFF, 16, Ghost(none));
        let ghost one = none.push(Field { value: 0xFFFF, bits: 16 });
        put_field(&mut bits, acceptable_noise_level, 9, Ghost(one));
        let ghost two = one.push(Field { value: level as nat, bits: 9 });
        put_field(&mut bits, evaluation_boundary, 7, Ghost(two));
        assert(two.push(Field { value: boundary as nat, bits: 7 }) =~= header_fields(
            e,
            level,
            boundary,
            0,
        ));
        let n: usize = self.config.channels as usize;
        let groups: usize = self.hfr_group_count as usize;
        let mut i: usize = 0;
        while i < n
            invariant
                i <= n == e.config.channels,
                n <= 8,
                groups == e.hfr_group_count,
                groups <= 8,
                e == self@,
                self.wf(),
                all_packable(e),
                holds_fields(bits.bytes(), header_fields(e, level, boundary, i as nat)),
                bits.pos() == total(header_fields(e, level, boundary, i as nat)),
                bits.pos() <= 32 + 1600 * i,
                bits.bytes().len() == size - 2,
            decreases n - i,
        {
            let ghost c = e.channel[i as int];
            assert(c == self.channel@[i as int]@);
            assert(packable(c));
            let ghost f = header_fields(e, level, boundary, i as nat);
            write_scale_factors(&mut bits, &self.channel[i], Ghost(f));
            write_side_fields(&mut bits, &self.channel[i], groups, Ghost(f + scale_fields(c)));
            i += 1;
        }
        let ghost head = header_fields(e, level, boundary, n as nat);
        let mut subframe: usize = 0;
        assert(head =~= head + values_fields(e, 0));
        while subframe < 8
            invariant
                subframe <= 8,
                n == e.config.channels,
                n <= 8,
                e == self@,
                self.wf(),
                all_packable(e),
                holds_fields(bits.bytes(), head + values_fields(e, subframe as nat)),
                bits.pos() == total(head + values_fields(e, subframe as nat)),
                bits.pos() <= 12832 + 12288 * subframe,
                bits.bytes().len() == size - 2,
            decreases 8 - subframe,
        {
            let ghost f = head + values_fields(e, subframe as nat);
            let ghost start = bits.pos();
            let mut k: usize = 0;
            assert(f =~= f + subframe_fields(e, subframe as int, 0));
            while k < n
                invariant
                    k <= n == e.config.channels,
                    n <= 8,
                    subframe < 8,
                    e == self@,
                    self.wf(),
                    all_packable(e),
                    holds_fields(bits.bytes(), f + subframe_fields(e, subframe as int, k as nat)),
                    bits.pos() == total(f + subframe_fields(e, subframe as int, k as nat)),
                    bits.pos() <= start + 1536 * k,
                    start <= 12832 + 12288 * subframe,
                    bits.bytes().len() == size - 2,
                decreases n - k,
            {
                let ghost c = e.channel[k as int];
                assert(c == self.channel@[k as int]@);
                assert(packable(c));
                let ghost g = f + subframe_fields(e, subframe as int, k as nat);
                write_spectra(&mut bits, &self.channel[k], subframe, Ghost(g));
                assert(g + spectra_fields(c, subframe as int, c.coded_count) =~= f
                    + subframe_fields(e, subframe as int, (k + 1) as nat));
                k += 1;
            }
            assert(f + subframe_fields(e, subframe as int, n as nat) =~= head + values_fields(
                e,
                (subframe + 1) as nat,
            ));
            subframe += 1;
        }
        if bits.position() > (size - 2) * 8 {
            return Err(HcaEncoderError::FrameTooLarge);
        }
        let mut frame = bits.into_vec();
        let ghost body = frame@;
        let checksum: u16 = crc16_checksum(frame.as_slice());
        crate::bytes::put_u16_be(&mut frame, checksum);
        assert(frame@.subrange(0, size - 2) =~= body);
        assert(frame@.subrange(size - 2, size as int) =~= be16(crc16(body)));
        Ok(frame)
    }

    /// Packs a frame, encrypts it where there is a key, and puts the checksum
    /// of the result at its end.
    pub fn finish_frame(&self, acceptable_noise_level: u32, evaluation_boundary: u32) -> (r: Result<
        Vec<u8>,
        HcaEncoderError,
    >)
        requires
            self.wf(),
            all_packable(self@),
        ensures
            ({
                let f = frame_fields(self@, acceptable_noise_level, evaluation_boundary);
                if total(f) <= 8 * (self@.frame_size - 2) {
                    r is Ok && exists|plain: Seq<u8>|
                        #[trigger] is_frame(
                            plain,
                            self@,
                            acceptable_noise_level,
                            evaluation_boundary,
                        ) && r->Ok_0@ == sealed(plain, self@)
                } else {
                    r == Err::<Vec<u8>, HcaEncoderError>(HcaEncoderError::FrameTooLarge)
                }
            }),
    {
        let frame = self.pack_frame(acceptable_noise_level, evaluation_boundary)?;
        let ghost plain = frame@;
        let size: usize = self.frame_size as usize;
        let mut out: Vec<u8> = crate::bytes::copy_range(frame.as_slice(), 0, size - 2);
        if self.config.encryption_key.is_some() {
            let ghost body = out@;
            let ghost want = body.map_values(|b: u8| self.encrypt_table@[b as int]);
            let mut i: usize = 0;
            while i < size - 2
                invariant
                    i <= size - 2,
                    out@.len() == size - 2,
                    body.len() == size - 2,
                    want == body.map_values(|b: u8| self.encrypt_table@[b as int]),
                    forall|j: int| 0 <= j < i ==> #[trigger] out@[j] == want[j],
                    forall|j: int| i <= j < size - 2 ==> #[trigger] out@[j] == body[j],
                decreases size - 2 - i,
            {
                let b: u8 = out[i];
                out.set(i, self.encrypt_table[b as usize]);
                i += 1;
            }
            assert(out@ =~= want);
        }
        let checksum: u16 = crc16_checksum(out.as_slice());
        crate::bytes::put_u16_be(&mut out, checksum);
        assert(out@ == sealed(plain, self@));
        Ok(out)
    }
}

/// Zero bytes hold no fields.
proof fn blank_holds(d: Seq<u8>, n: nat)
    requires
        d == zeros(n),
    ensures
        holds_fields(d, Seq::<Field>::empty()),
        total(Seq::<Field>::empty()) == 0,
{
    assert forall|q: nat| 0 <= q < 8 * d.len() implies #[trigger] bit_at(d, q) == 0 by {
        let e = pow2((7 - q % 8) as nat);
        vstd::arithmetic::power2::lemma_pow2_pos((7 - q % 8) as nat);
        assert(0nat / e == 0) by (nonlinear_arith)
            requires
                e > 0,
        ;
    }
}

} // verus!
