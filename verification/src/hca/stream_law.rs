//! What the decoder reads of a stream that the encoder wrote.

use vstd::prelude::*;
use crate::bytes::{be16, be16_round_trip, u32_be, zeros};
use crate::hca::block::{channels_after, error_of};
use crate::hca::decoder::{
    blank_header, blank_state, channel_types, header_of, num, tag, typed_channels, types_of,
    with_track, ChannelType, HeaderModel, StateModel, HCA_DEFAULT_RANDOM,
};
use crate::hca::encoder::{encode_types, encoder_wf, same_encode_kind, EncoderModel};
use crate::hca::frame_law::{
    channel_shaped, decoder_matches, encoder_ready, frame_reads_back, sides_match, tables_match,
    values_match,
};
use crate::hca::hca_file::{block_at, block_bytes, joined, open_error, open_header};
use crate::hca::header_law::{
    bytes_read, header_reads_back, header_says, loop_within, stream_holds, tag_named,
};
use crate::hca::pack::{frame_fields, is_frame, sealed, total};
use crate::hca::stream_header::{hca_id, stream_header, unmasked_id};
use crate::reader::slice_at;

verus! {

/// A stream: its header and its frames.
pub open spec fn stream_bytes(e: EncoderModel, frames: Seq<Seq<u8>>) -> Seq<u8> {
    stream_header(e, frames.len() as u32) + joined(frames, frames.len())
}

/// Whether all frames have one size.
pub open spec fn sized(frames: Seq<Seq<u8>>, size: int) -> bool {
    forall|i: int| 0 <= i < frames.len() ==> (#[trigger] frames[i]).len() == size
}

proof fn frame_stands(frames: Seq<Seq<u8>>, size: int, n: nat, b: int)
    requires
        sized(frames, size),
        size >= 0,
        0 <= b < n <= frames.len(),
    ensures
        joined(frames, n).len() == n * size,
        0 <= b * size,
        b * size + size <= n * size,
        joined(frames, n).subrange(b * size, b * size + size) == frames[b],
    decreases n,
{
    let j = joined(frames, n);
    let rest = joined(frames, (n - 1) as nat);
    let last = frames[n - 1];
    if n == 1 {
        assert(joined(frames, 0).len() == 0);
        assert(j.len() == 1 * size);
    } else {
        frame_stands(frames, size, (n - 1) as nat, if b < n - 1 { b } else { 0 });
    }
    assert((n - 1) * size + size == n * size) by (nonlinear_arith);
    assert(b * size >= 0 && b * size + size <= n * size) by (nonlinear_arith)
        requires
            0 <= b,
            b + 1 <= n,
            size >= 0,
    ;
    if b == n - 1 {
        assert(rest.len() == (n - 1) * size) by {
            if n == 1 {
                assert(0 * size == 0) by (nonlinear_arith);
            }
        }
        assert(j.subrange(b * size, b * size + size) =~= last);
    } else {
        assert(j.subrange(b * size, b * size + size) =~= rest.subrange(b * size, b * size + size));
    }
}

/// Data that starts with a header gives the header's size in its first bytes.
proof fn size_told(d: Seq<u8>, head: Seq<u8>)
    requires
        head.len() == 0x60,
        d.len() >= 0x60,
        d.subrange(0, 0x60) == head,
        unmasked_id(head, 0) == hca_id(),
        head.subrange(6, 8) == be16(0x60),
    ensures
        tag(slice_at(d, 0, 8), 0) == 0x4843_4100,
        num(slice_at(d, 0, 8), 48, 16) == 0x60,
{
    let first = slice_at(d, 0, 8);
    assert(first =~= head.subrange(0, 8));
    assert(unmasked_id(first, 0) =~= unmasked_id(head, 0));
    assert(first.subrange(6, 8) =~= head.subrange(6, 8));
    tag_named(first, 0);
    bytes_read(first, 6);
    be16_round_trip(0x60);
    assert(u32_be(hca_id()) == 0x4843_4100);
}

proof fn header_found(d: Seq<u8>, head: Seq<u8>)
    requires
        head.len() == 0x60,
        d.len() >= 0x60,
        d.subrange(0, 0x60) == head,
        unmasked_id(head, 0) == hca_id(),
        head.subrange(6, 8) == be16(0x60),
        header_of(head, blank_header()).error is None,
    ensures
        open_error(d, 0) is None,
        open_header(d, 0) == header_of(head, blank_header()).h,
{
    size_told(d, head);
}

/// A stream opens with the header that the encoder was set to, and each block
/// is the frame that was written.
pub proof fn stream_opens(e: EncoderModel, frames: Seq<Seq<u8>>, b: int)
    requires
        encoder_wf(e),
        e.padding <= 0xFFFF,
        loop_within(e, frames.len() as u32),
        sized(frames, e.frame_size as int),
        0 <= b < frames.len() <= u32::MAX,
    ensures
        ({
            let d = stream_bytes(e, frames);
            let h = open_header(d, 0);
            &&& open_error(d, 0) is None
            &&& header_says(h, e, frames.len() as u32)
            &&& block_at(h, b) + h.frame_size <= d.len()
            &&& block_bytes(d, h, b) == frames[b]
        }),
{
    let n = frames.len() as u32;
    let d = stream_bytes(e, frames);
    let head = stream_header(e, n);
    stream_holds(e, n);
    assert(d.subrange(0, 0x60) =~= head);
    header_reads_back(e, n, blank_header());
    header_found(d, head);
    frame_stands(frames, e.frame_size as int, frames.len(), b);
    block_found(head, joined(frames, frames.len()), open_header(d, 0), frames[b], b);
}

proof fn block_found(head: Seq<u8>, body: Seq<u8>, h: HeaderModel, frame: Seq<u8>, b: int)
    requires
        head.len() == 0x60,
        h.header_size == 0x60,
        0 <= b * h.frame_size,
        b * h.frame_size + h.frame_size <= body.len(),
        body.subrange(b * h.frame_size, b * h.frame_size + h.frame_size) == frame,
    ensures
        block_at(h, b) + h.frame_size <= (head + body).len(),
        block_bytes(head + body, h, b) == frame,
{
    assert(block_bytes(head + body, h, b) =~= frame);
}

/// The state of a decoder that was set up for a stream without a hearing
/// curve.
pub open spec fn ready_state(h: HeaderModel, cipher: Seq<u8>) -> StateModel {
    StateModel {
        is_valid: true,
        ath_curve: zeros(128),
        cipher_table: cipher,
        random: HCA_DEFAULT_RANDOM,
        channel: typed_channels(h, blank_state().channel),
    }
}

proof fn types_agree(h: HeaderModel, e: EncoderModel)
    requires
        encoder_wf(e),
        h.channels == e.config.channels,
        h.track_count == 1,
        h.channel_config == e.channel_config,
        h.stereo_band_count == e.bands.stereo,
    ensures
        forall|i: int|
            0 <= i < e.config.channels ==> #[trigger] channel_types(h)[i] == encode_types(
                e.config.channels as nat,
                e.bands.stereo,
                e.channel_config,
            )[i],
{
    let n = e.config.channels as nat;
    assert(h.channels / h.track_count == n);
    if h.stereo_band_count > 0 && n > 1 {
        let wide = Seq::new(16, |i: int| ChannelType::Discrete);
        let narrow = Seq::new(n, |i: int| ChannelType::Discrete);
        assert(types_of(n, h.channel_config, 0) == wide);
        assert(0 * n == 0) by (nonlinear_arith);
        assert(types_of(n, h.channel_config, 1) == with_track(
            wide,
            0,
            n as int,
            h.channel_config,
        ));
        assert forall|i: int| 0 <= i < n implies with_track(
            wide,
            0,
            n as int,
            h.channel_config,
        )[i] == with_track(narrow, 0, n as int, h.channel_config)[i] by {}
    }
}

/// A decoder that was set up for a stream matches its encoder.
pub proof fn opened_matches(h: HeaderModel, e: EncoderModel, frame_count: u32, cipher: Seq<u8>)
    requires
        encoder_wf(e),
        header_says(h, e, frame_count),
    ensures
        decoder_matches(h, ready_state(h, cipher), e),
{
    let st = ready_state(h, cipher);
    types_agree(h, e);
    assert forall|i: int| 0 <= i < e.config.channels implies channel_shaped(
        #[trigger] st.channel[i],
    ) && st.channel[i].channel_type == e.channel[i].channel_type && st.channel[i].coded_count
        == e.channel[i].coded_count by {
        assert(channel_types(h)[i] == encode_types(
            e.config.channels as nat,
            e.bands.stereo,
            e.channel_config,
        )[i]);
        assert(same_encode_kind(
            e.channel[i],
            encode_types(e.config.channels as nat, e.bands.stereo, e.channel_config)[i],
            e.bands,
        ));
        assert(channel_shaped(blank_state().channel[i]));
    }
}

/// What went into a frame: the encoder's channels, the levels and the packed
/// frame.
pub struct FrameInput {
    pub e: EncoderModel,
    pub level: u32,
    pub boundary: u32,
    pub plain: Seq<u8>,
}

/// Whether a frame was packed by an encoder with the given settings, its
/// channels filled anew.
#[verifier::opaque]
pub open spec fn packed_by(f: FrameInput, e: EncoderModel) -> bool {
    &&& f.e == (EncoderModel { channel: f.e.channel, ..e })
    &&& encoder_ready(f.e, f.level as int, f.boundary as int)
    &&& is_frame(f.plain, f.e, f.level, f.boundary)
    &&& total(frame_fields(f.e, f.level, f.boundary)) <= 8 * (e.frame_size - 2)
}

/// The frames as they are stored.
pub open spec fn stored(inputs: Seq<FrameInput>) -> Seq<Seq<u8>> {
    Seq::new(inputs.len(), |i: int| sealed(inputs[i].plain, inputs[i].e))
}

pub(crate) proof fn stored_sized(e: EncoderModel, inputs: Seq<FrameInput>)
    requires
        forall|i: int| 0 <= i < inputs.len() ==> packed_by(#[trigger] inputs[i], e),
        e.frame_size >= 8,
    ensures
        sized(stored(inputs), e.frame_size as int),
{
    reveal(packed_by);
    let frames = stored(inputs);
    assert forall|i: int| 0 <= i < frames.len() implies (#[trigger] frames[i]).len()
        == e.frame_size by {
        assert(packed_by(inputs[i], e));
    }
}

/// The state of a decoder after the first `k` of some blocks.
pub open spec fn state_after(
    h: HeaderModel,
    st: StateModel,
    blocks: Seq<Seq<u8>>,
    k: nat,
) -> StateModel
    decreases k,
{
    if k == 0 {
        st
    } else {
        let before = state_after(h, st, blocks, (k - 1) as nat);
        StateModel { channel: channels_after(h, before, blocks[k - 1]), ..before }
    }
}

/// A decoder that matches one frame's encoder matches any other of the same
/// settings.
proof fn match_carries(h: HeaderModel, st: StateModel, a: EncoderModel, b: EncoderModel)
    requires
        decoder_matches(h, st, a),
        encoder_wf(a),
        encoder_wf(b),
        b == (EncoderModel { channel: b.channel, ..a }),
    ensures
        decoder_matches(h, st, b),
{
    assert forall|i: int| 0 <= i < b.config.channels implies channel_shaped(#[trigger] st.channel[i])
        && st.channel[i].channel_type == b.channel[i].channel_type && st.channel[i].coded_count
        == b.channel[i].coded_count by {
        let t = encode_types(a.config.channels as nat, a.bands.stereo, a.channel_config)[i];
        assert(same_encode_kind(a.channel[i], t, a.bands));
        assert(same_encode_kind(b.channel[i], t, b.bands));
    }
}

pub(crate) proof fn states_match(
    h: HeaderModel,
    st: StateModel,
    e: EncoderModel,
    inputs: Seq<FrameInput>,
    k: nat,
)
    requires
        k <= inputs.len(),
        encoder_wf(e),
        decoder_matches(h, st, e),
        forall|i: int| 0 <= i < inputs.len() ==> packed_by(#[trigger] inputs[i], e),
        e.config.encryption_key is Some ==> tables_match(st.cipher_table, e.encrypt_table),
    ensures
        decoder_matches(h, state_after(h, st, stored(inputs), k), e),
        state_after(h, st, stored(inputs), k).cipher_table == st.cipher_table,
    decreases k,
{
    if k > 0 {
        states_match(h, st, e, inputs, (k - 1) as nat);
        let before = state_after(h, st, stored(inputs), (k - 1) as nat);
        let f = inputs[k - 1];
        assert(packed_by(f, e));
        block_reads(h, before, e, f);
        assert(stored(inputs)[k - 1] == sealed(f.plain, f.e));
    }
}

/// A decoder that matches the settings reads a frame as it was packed.
pub(crate) proof fn block_reads(h: HeaderModel, st: StateModel, e: EncoderModel, f: FrameInput)
    requires
        encoder_wf(e),
        decoder_matches(h, st, e),
        packed_by(f, e),
        e.config.encryption_key is Some ==> tables_match(st.cipher_table, e.encrypt_table),
    ensures
        ({
            let block = sealed(f.plain, f.e);
            let after = channels_after(h, st, block);
            &&& error_of(h, st, block) is None
            &&& forall|i: int|
                0 <= i < e.config.channels ==> sides_match(
                    #[trigger] after[i],
                    f.e.channel[i],
                    e.hfr_group_count as int,
                ) && values_match(after[i], f.e.channel[i], 8)
            &&& decoder_matches(h, (StateModel { channel: after, ..st }), e)
        }),
{
    reveal(packed_by);
    match_carries(h, st, e, f.e);
    frame_reads_back(h, st, f.e, f.level, f.boundary, f.plain);
    let after = channels_after(h, st, sealed(f.plain, f.e));
    match_carries(h, (StateModel { channel: after, ..st }), f.e, e);
}

/// The decoder reads a whole stream as the encoder packed it: the stream
/// opens, and every block in turn is accepted and gives back the scale
/// factors, the side information, the resolutions and the values of its frame.
pub proof fn stream_reads_back(
    e: EncoderModel,
    inputs: Seq<FrameInput>,
    cipher: Seq<u8>,
    k: int,
)
    requires
        encoder_wf(e),
        e.padding <= 0xFFFF,
        loop_within(e, inputs.len() as u32),
        0 <= k < inputs.len() <= u32::MAX,
        forall|i: int| 0 <= i < inputs.len() ==> packed_by(#[trigger] inputs[i], e),
        e.config.encryption_key is Some ==> tables_match(cipher, e.encrypt_table),
    ensures
        ({
            let d = stream_bytes(e, stored(inputs));
            let h = open_header(d, 0);
            let st = state_after(h, ready_state(h, cipher), stored(inputs), k as nat);
            let block = block_bytes(d, h, k);
            let after = channels_after(h, st, block);
            &&& open_error(d, 0) is None
            &&& header_says(h, e, inputs.len() as u32)
            &&& block == stored(inputs)[k]
            &&& error_of(h, st, block) is None
            &&& forall|i: int|
                0 <= i < e.config.channels ==> sides_match(
                    #[trigger] after[i],
                    inputs[k].e.channel[i],
                    e.hfr_group_count as int,
                ) && values_match(after[i], inputs[k].e.channel[i], 8)
        }),
{
    let frames = stored(inputs);
    stored_sized(e, inputs);
    stream_opens(e, frames, k);
    let d = stream_bytes(e, frames);
    let h = open_header(d, 0);
    opened_matches(h, e, inputs.len() as u32, cipher);
    let first = ready_state(h, cipher);
    states_match(h, first, e, inputs, k as nat);
    let st = state_after(h, first, frames, k as nat);
    let f = inputs[k];
    assert(packed_by(f, e));
    block_reads(h, st, e, f);
}

} // verus!
