//! What comes out of a stream does not depend on its key, and is as long as
//! what went in.

use vstd::prelude::*;
use crate::hca::block::{channels_after, error_of};
use crate::hca::decoder::{ceil_div, ChannelModel, ChannelType, HeaderModel, StateModel};
use crate::hca::encoder::{
    encode_types, encoder_wf, identity_table, inverse_table, same_encode_kind, EncodeModel,
    EncoderModel, HcaEncoderConfig, ENCODER_DELAY,
};
use crate::hca::frame_law::{decoder_matches, sides_match, tables_match, values_match};
use crate::hca::hca_file::{
    block_bytes, effective_key, open_error, open_header, trim_after, trim_gives_all,
    valid_samples,
};
use crate::hca::header_law::{header_says, loop_within};
use crate::hca::pack::{frame_fields, header_fields, subframe_fields, values_fields};
use crate::hca::stream_header::frames_needed;
use crate::hca::stream_law::{
    block_reads, opened_matches, packed_by, ready_state, sized, state_after, states_match,
    stored, stored_sized, stream_bytes, stream_opens, FrameInput,
};

verus! {

/// Whether a table can be the cipher of a key: every byte occurs in it, and the
/// sync word stays.
pub open spec fn is_cipher(t: Seq<u8>) -> bool {
    &&& t.len() == 256
    &&& t[255] == 255
    &&& forall|b: u8| #[trigger] t.contains(b)
}

/// An encoder with a key, and the table that undoes the key's cipher.
pub open spec fn locked(e: EncoderModel, key: u64, table: Seq<u8>) -> EncoderModel {
    EncoderModel {
        config: HcaEncoderConfig { encryption_key: Some(key), ..e.config },
        encrypt_table: inverse_table(table, 256),
        ..e
    }
}

/// Frames packed under a key.
pub open spec fn locked_inputs(inputs: Seq<FrameInput>, key: u64, table: Seq<u8>) -> Seq<
    FrameInput,
> {
    Seq::new(
        inputs.len(),
        |i: int| FrameInput { e: locked(inputs[i].e, key, table), ..inputs[i] },
    )
}

/// Whether two channels agree in all that samples are made from, band by coded
/// band: scale factors, resolutions and values, and the intensities of a
/// secondary channel or the high-frequency scales of another one.
pub open spec fn heard_alike(a: ChannelModel, b: ChannelModel, groups: int) -> bool {
    &&& a.channel_type == b.channel_type
    &&& a.coded_count == b.coded_count
    &&& forall|k: int|
        0 <= k < a.coded_count ==> #[trigger] a.scale_factors[k] == b.scale_factors[k]
    &&& forall|k: int| 0 <= k < a.coded_count ==> #[trigger] a.resolution[k] == b.resolution[k]
    &&& a.channel_type == ChannelType::StereoSecondary ==> a.intensity == b.intensity
    &&& a.channel_type != ChannelType::StereoSecondary ==> forall|k: int|
        128 - groups <= k < 128 ==> #[trigger] a.scale_factors[k] == b.scale_factors[k]
    &&& forall|s: int, k: int|
        0 <= s < 8 && 0 <= k < a.coded_count ==> #[trigger] a.codes[s][k] == b.codes[s][k]
}

proof fn inverse_finds(t: Seq<u8>, n: nat, b: u8)
    requires
        t.len() == 256,
        n <= 256,
        exists|p: int| 0 <= p < n && t[p] == b,
    ensures
        inverse_table(t, n).len() == 256,
        inverse_table(t, n)[b as int] < n,
        t[inverse_table(t, n)[b as int] as int] == b,
    decreases n,
{
    inverse_long(t, n);
    inverse_long(t, (n - 1) as nat);
    if t[n - 1] != b {
        let p = choose|p: int| 0 <= p < n && t[p] == b;
        assert(p < n - 1);
        inverse_finds(t, (n - 1) as nat, b);
    }
}

proof fn inverse_long(t: Seq<u8>, n: nat)
    ensures
        inverse_table(t, n).len() == 256,
    decreases n,
{
    if n > 0 {
        inverse_long(t, (n - 1) as nat);
    }
}

proof fn cipher_matches(t: Seq<u8>)
    requires
        is_cipher(t),
    ensures
        tables_match(t, inverse_table(t, 256)),
{
    let inverse = inverse_table(t, 256);
    inverse_long(t, 256);
    inverse_long(t, 255);
    assert(inverse[255] == 255);
    assert forall|b: int| 0 <= b < 256 implies t[#[trigger] inverse[b] as int] == b by {
        assert(t.contains(b as u8));
        let p = t.index_of(b as u8);
        assert(0 <= p < 256 && t[p] == b as u8);
        inverse_finds(t, 256, b as u8);
    }
}

proof fn side_fields_locked(
    e: EncoderModel,
    key: u64,
    table: Seq<u8>,
    level: u32,
    boundary: u32,
    n: nat,
)
    ensures
        header_fields(locked(e, key, table), level, boundary, n) == header_fields(
            e,
            level,
            boundary,
            n,
        ),
    decreases n,
{
    if n > 0 {
        side_fields_locked(e, key, table, level, boundary, (n - 1) as nat);
    }
}

proof fn subframe_locked(e: EncoderModel, key: u64, table: Seq<u8>, s: int, n: nat)
    ensures
        subframe_fields(locked(e, key, table), s, n) == subframe_fields(e, s, n),
    decreases n,
{
    if n > 0 {
        subframe_locked(e, key, table, s, (n - 1) as nat);
    }
}

proof fn values_locked(e: EncoderModel, key: u64, table: Seq<u8>, n: nat)
    ensures
        values_fields(locked(e, key, table), n) == values_fields(e, n),
    decreases n,
{
    if n > 0 {
        values_locked(e, key, table, (n - 1) as nat);
        subframe_locked(e, key, table, n - 1, e.config.channels as nat);
    }
}

proof fn packed_locked(f: FrameInput, e: EncoderModel, key: u64, table: Seq<u8>)
    requires
        packed_by(f, e),
    ensures
        packed_by(
            (FrameInput { e: locked(f.e, key, table), ..f }),
            locked(e, key, table),
        ),
{
    reveal(packed_by);
    side_fields_locked(f.e, key, table, f.level, f.boundary, e.config.channels as nat);
    values_locked(f.e, key, table, 8);
    assert(frame_fields(locked(f.e, key, table), f.level, f.boundary) == frame_fields(
        f.e,
        f.level,
        f.boundary,
    ));
    assert(locked(f.e, key, table) == (EncoderModel {
        channel: locked(f.e, key, table).channel,
        ..locked(e, key, table)
    }));
}

/// A stream opened with some key reads as its frames were packed.
proof fn opened_reads(
    e: EncoderModel,
    inputs: Seq<FrameInput>,
    h: HeaderModel,
    cipher: Seq<u8>,
    k: int,
)
    requires
        encoder_wf(e),
        e.padding <= 0xFFFF,
        loop_within(e, inputs.len() as u32),
        0 <= k < inputs.len() <= u32::MAX,
        forall|i: int| 0 <= i < inputs.len() ==> packed_by(#[trigger] inputs[i], e),
        e.config.encryption_key is Some ==> tables_match(cipher, e.encrypt_table),
        h == (HeaderModel {
            keycode: h.keycode,
            ..open_header(stream_bytes(e, stored(inputs)), 0)
        }),
    ensures
        ({
            let d = stream_bytes(e, stored(inputs));
            let st = state_after(h, ready_state(h, cipher), stored(inputs), k as nat);
            let after = channels_after(h, st, block_bytes(d, h, k));
            &&& open_error(d, 0) is None
            &&& error_of(h, st, block_bytes(d, h, k)) is None
            &&& forall|i: int|
                0 <= i < e.config.channels ==> holds_frame(
                    #[trigger] after[i],
                    e.channel[i],
                    inputs[k].e.channel[i],
                    e.hfr_group_count as int,
                )
        }),
{
    let frames = stored(inputs);
    let d = stream_bytes(e, frames);
    let n = inputs.len() as u32;
    let h0 = open_header(d, 0);
    stored_sized(e, inputs);
    stream_opens(e, frames, k);
    assert(header_says(h, e, n));
    opened_matches(h, e, n, cipher);
    states_match(h, ready_state(h, cipher), e, inputs, k as nat);
    let st = state_after(h, ready_state(h, cipher), frames, k as nat);
    assert(packed_by(inputs[k], e));
    block_reads(h, st, e, inputs[k]);
    assert(block_bytes(d, h, k) == block_bytes(d, h0, k));
    let after = channels_after(h, st, block_bytes(d, h, k));
    assert(decoder_matches(h, (StateModel { channel: after, ..st }), e));
}

/// Whether a channel has the kind of one to be encoded and holds what a frame's
/// channel held.
spec fn holds_frame(c: ChannelModel, kind: EncodeModel, f: EncodeModel, groups: int) -> bool {
    &&& c.channel_type == kind.channel_type
    &&& c.coded_count == kind.coded_count
    &&& sides_match(c, f, groups)
    &&& values_match(c, f, 8)
}

proof fn frames_alike(
    a: ChannelModel,
    b: ChannelModel,
    kind: EncodeModel,
    f: EncodeModel,
    groups: int,
)
    requires
        holds_frame(a, kind, f, groups),
        holds_frame(b, kind, f, groups),
        f.channel_type == kind.channel_type,
        f.coded_count == kind.coded_count,
    ensures
        heard_alike(a, b, groups),
{
    if f.channel_type != ChannelType::StereoSecondary {
        assert forall|j: int| 128 - groups <= j < 128 implies #[trigger] a.scale_factors[j]
            == b.scale_factors[j] by {
            let at = j - (128 - groups);
            assert(f.hfr_scales[at] == a.scale_factors[128 - groups + at]);
            assert(f.hfr_scales[at] == b.scale_factors[128 - groups + at]);
        }
    }
    assert forall|s: int, k: int| 0 <= s < 8 && 0 <= k < a.coded_count implies
        #[trigger] a.codes[s][k] == b.codes[s][k] by {
        assert(b.codes[s][k] == f.quantized[s][k]);
    }
}

proof fn kinds_kept(f: FrameInput, e: EncoderModel, i: int)
    requires
        encoder_wf(e),
        packed_by(f, e),
        0 <= i < e.config.channels,
    ensures
        f.e.channel[i].channel_type == e.channel[i].channel_type,
        f.e.channel[i].coded_count == e.channel[i].coded_count,
{
    reveal(packed_by);
    let t = encode_types(e.config.channels as nat, e.bands.stereo, e.channel_config)[i];
    assert(same_encode_kind(e.channel[i], t, e.bands));
    assert(same_encode_kind(f.e.channel[i], t, e.bands));
}

/// A stream that was encrypted under a key code combined with a subkey, read
/// with the key code and the subkey, gives what the same frames give without
/// encryption, whatever cipher table belongs to a key.
pub proof fn keys_read_as_plain(
    e: EncoderModel,
    inputs: Seq<FrameInput>,
    tables: spec_fn(u64) -> Seq<u8>,
    keycode: u64,
    subkey: u64,
    k: int,
)
    requires
        encoder_wf(e),
        e.config.encryption_key is None,
        e.padding <= 0xFFFF,
        loop_within(e, inputs.len() as u32),
        0 <= k < inputs.len() <= u32::MAX,
        forall|i: int| 0 <= i < inputs.len() ==> packed_by(#[trigger] inputs[i], e),
        is_cipher(tables(effective_key(keycode, subkey))),
    ensures
        ({
            let key = effective_key(keycode, subkey);
            let table = tables(key);
            let kept = stored(locked_inputs(inputs, key, table));
            let d = stream_bytes(locked(e, key, table), kept);
            let h = HeaderModel { keycode: key, ..open_header(d, 0) };
            let st = state_after(h, ready_state(h, table), kept, k as nat);
            let open = stored(inputs);
            let p = stream_bytes(e, open);
            let g = open_header(p, 0);
            let pt = state_after(g, ready_state(g, identity_table()), open, k as nat);
            &&& open_error(d, 0) is None
            &&& open_error(p, 0) is None
            &&& error_of(h, st, block_bytes(d, h, k)) is None
            &&& error_of(g, pt, block_bytes(p, g, k)) is None
            &&& forall|i: int|
                0 <= i < e.config.channels ==> heard_alike(
                    #[trigger] channels_after(h, st, block_bytes(d, h, k))[i],
                    channels_after(g, pt, block_bytes(p, g, k))[i],
                    e.hfr_group_count as int,
                )
        }),
{
    let key = effective_key(keycode, subkey);
    let table = tables(key);
    let l = locked(e, key, table);
    let hidden = locked_inputs(inputs, key, table);
    let kept = stored(hidden);
    let open = stored(inputs);
    assert(encoder_wf(l)) by {
        assert(l.channel == e.channel);
    }
    assert forall|i: int| 0 <= i < hidden.len() implies packed_by(#[trigger] hidden[i], l) by {
        assert(packed_by(inputs[i], e));
        packed_locked(inputs[i], e, key, table);
    }
    cipher_matches(table);
    let d = stream_bytes(l, kept);
    let h = HeaderModel { keycode: key, ..open_header(d, 0) };
    opened_reads(l, hidden, h, table, k);
    let st = state_after(h, ready_state(h, table), kept, k as nat);
    let a = channels_after(h, st, block_bytes(d, h, k));
    let p = stream_bytes(e, open);
    let g = open_header(p, 0);
    opened_reads(e, inputs, g, identity_table(), k);
    let pt = state_after(g, ready_state(g, identity_table()), open, k as nat);
    let b = channels_after(g, pt, block_bytes(p, g, k));
    assert forall|i: int| 0 <= i < e.config.channels implies heard_alike(
        #[trigger] a[i],
        b[i],
        e.hfr_group_count as int,
    ) by {
        let f = inputs[k].e.channel[i];
        assert(packed_by(inputs[k], e));
        kinds_kept(inputs[k], e, i);
        assert(hidden[k].e.channel[i] == f);
        frames_alike(a[i], b[i], e.channel[i], f, e.hfr_group_count as int);
    }
}

/// A stream of as many frames as some samples need opens with exactly as many
/// valid samples per channel as went in, and that many come out of its blocks
/// together.
pub proof fn as_many_samples_come_out(e: EncoderModel, frames: Seq<Seq<u8>>, sample_count: int)
    requires
        encoder_wf(e),
        sample_count > 0,
        loop_within(e, frames.len() as u32),
        sized(frames, e.frame_size as int),
        frames.len() == frames_needed(ceil_div(sample_count, e.config.channels as int)),
        frames.len() * 1024 <= u32::MAX,
        e.padding == frames.len() * 1024 - ENCODER_DELAY - ceil_div(
            sample_count,
            e.config.channels as int,
        ),
    ensures
        ({
            let h = open_header(stream_bytes(e, frames), 0);
            let valid = valid_samples(
                h.frame_count as int,
                h.encoder_delay as int,
                h.encoder_padding as int,
            );
            &&& open_error(stream_bytes(e, frames), 0) is None
            &&& valid == ceil_div(sample_count, e.config.channels as int)
            &&& trim_after(h.encoder_delay as int, valid, h.frame_count as nat).1 == valid
        }),
{
    let channels = e.config.channels as int;
    let per_channel = ceil_div(sample_count, channels);
    assert(per_channel >= 1) by (nonlinear_arith)
        requires
            per_channel == (sample_count + channels - 1) / channels,
            sample_count >= 1,
            channels >= 1,
    ;
    assert(e.padding <= 1023);
    stream_opens(e, frames, 0);
    let h = open_header(stream_bytes(e, frames), 0);
    trim_gives_all(h.frame_count as nat, h.encoder_delay as int, h.encoder_padding as int);
}

} // verus!
