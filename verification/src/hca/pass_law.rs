//! A second pass over a stream gives what the first one gave.

use vstd::prelude::*;
use crate::hca::alone_law::{bands_fill_alike, block_stands_alone, blocks_keep, kin, told_alike};
use crate::hca::block::{channels_after, error_of, scale_room};
use crate::hca::decoder::{coded_bands, ChannelModel, HeaderModel, StateModel, HCA_DEFAULT_RANDOM};
use crate::hca::hca_file::{block_bytes, rewound, stream_is_kin, HcaDecoder, StreamModel};
use crate::hca::reconstruct::{high_copies, noise_copies, noise_wanted, random_after};
use crate::hca::stream_law::state_after;

verus! {

/// The blocks of a stream.
pub open spec fn all_blocks(m: StreamModel) -> Seq<Seq<u8>> {
    Seq::new(m.header.frame_count as nat, |b: int| block_bytes(m.data, m.header, b))
}

/// The bands that the first `n` channels fill with noise in a subframe.
pub open spec fn noise_drawn(h: HeaderModel, cs: Seq<ChannelModel>, n: nat) -> nat
    decreases n,
{
    if n == 0 {
        0
    } else {
        noise_drawn(h, cs, (n - 1) as nat) + if noise_wanted(h, cs[n - 1]) {
            cs[n - 1].noise_count
        } else {
            0
        }
    }
}

/// The noise generator before block `b` of a pass: every block that was read
/// moves it on by one for each band that its eight subframes fill.
pub open spec fn random_before(h: HeaderModel, st: StateModel, blocks: Seq<Seq<u8>>, b: nat) -> u32
    decreases b,
{
    if b == 0 {
        st.random
    } else {
        let last = (b - 1) as nat;
        let before = state_after(h, st, blocks, last);
        let random = random_before(h, st, blocks, last);
        if error_of(h, before, blocks[b - 1]) is None {
            let cs = channels_after(h, before, blocks[b - 1]);
            random_after(random, 8 * noise_drawn(h, cs, h.channels as nat))
        } else {
            random
        }
    }
}

/// Whether two decoders read a block alike: they refuse it for the same reason,
/// or all their channels agree in what samples are made from, and their high
/// bands and, from the same place of the noise generator, their noise are
/// filled alike.
pub open spec fn reads_alike(h: HeaderModel, a: StateModel, b: StateModel, d: Seq<u8>) -> bool {
    let x = channels_after(h, a, d);
    let y = channels_after(h, b, d);
    &&& error_of(h, a, d) == error_of(h, b, d)
    &&& error_of(h, a, d) is None ==> forall|i: int|
        0 <= i < h.channels ==> {
            &&& told_alike(h, #[trigger] x[i], y[i], 8)
            &&& high_copies(h, x[i]) == high_copies(h, y[i])
            &&& forall|r: u32| #[trigger] noise_copies(h, x[i], r) == noise_copies(h, y[i], r)
        }
}

/// Whether the channels of a state are set up for a header.
spec fn set_up(h: HeaderModel, st: StateModel) -> bool {
    &&& h.channels <= 16
    &&& st.channel.len() == 16
    &&& forall|i: int|
        0 <= i < h.channels ==> kin(h, #[trigger] st.channel[i], st.channel[i])
            && st.channel[i].coded_count == coded_bands(h, st.channel[i].channel_type)
}

proof fn alike_by_kin(h: HeaderModel, a: StateModel, b: StateModel, d: Seq<u8>)
    requires
        h.channels <= 16,
        a.is_valid == b.is_valid,
        a.ath_curve == b.ath_curve,
        a.cipher_table == b.cipher_table,
        a.channel.len() == 16,
        b.channel.len() == 16,
        forall|i: int|
            0 <= i < h.channels ==> kin(h, #[trigger] a.channel[i], b.channel[i])
                && a.channel[i].coded_count == coded_bands(h, a.channel[i].channel_type),
    ensures
        reads_alike(h, a, b, d),
        error_of(h, a, d) is None ==> noise_drawn(h, channels_after(h, a, d), h.channels as nat)
            == noise_drawn(h, channels_after(h, b, d), h.channels as nat),
{
    block_stands_alone(h, a, b, d);
    let x = channels_after(h, a, d);
    let y = channels_after(h, b, d);
    if error_of(h, a, d) is None {
        kept_kinds(h, a, d);
        assert forall|i: int| 0 <= i < h.channels implies {
            &&& told_alike(h, #[trigger] x[i], y[i], 8)
            &&& high_copies(h, x[i]) == high_copies(h, y[i])
            &&& forall|r: u32| #[trigger] noise_copies(h, x[i], r) == noise_copies(h, y[i], r)
        } by {
            assert(told_alike(h, x[i], y[i], 8));
            assert forall|r: u32| #[trigger] noise_copies(h, x[i], r) == noise_copies(h, y[i], r)
                && high_copies(h, x[i]) == high_copies(h, y[i]) by {
                bands_fill_alike(h, x[i], y[i], r);
            }
            bands_fill_alike(h, x[i], y[i], 0);
        }
        same_drawn(h, x, y, h.channels as nat);
    }
}

/// Reading a block leaves the kinds of the channels.
proof fn kept_kinds(h: HeaderModel, a: StateModel, d: Seq<u8>)
    requires
        h.channels <= 16,
        a.channel.len() == 16,
        forall|i: int|
            0 <= i < h.channels ==> kin(h, #[trigger] a.channel[i], a.channel[i])
                && a.channel[i].coded_count == coded_bands(h, a.channel[i].channel_type),
    ensures
        forall|i: int|
            0 <= i < h.channels ==> (#[trigger] channels_after(h, a, d)[i]).coded_count
                == coded_bands(h, channels_after(h, a, d)[i].channel_type),
{
    blocks_keep(h, a, seq![d], 1);
    let after = state_after(h, a, seq![d], 1);
    assert(state_after(h, a, seq![d], 0) == a);
    assert(seq![d][0] == d);
    assert(after.channel == channels_after(h, a, d));
    assert forall|i: int| 0 <= i < h.channels implies (#[trigger] channels_after(
        h,
        a,
        d,
    )[i]).coded_count == coded_bands(h, channels_after(h, a, d)[i].channel_type) by {
        assert(kin(h, a.channel[i], after.channel[i]));
    }
}

proof fn same_drawn(h: HeaderModel, x: Seq<ChannelModel>, y: Seq<ChannelModel>, n: nat)
    requires
        n <= h.channels,
        forall|i: int| 0 <= i < h.channels ==> told_alike(h, #[trigger] x[i], y[i], 8),
    ensures
        noise_drawn(h, x, n) == noise_drawn(h, y, n),
    decreases n,
{
    if n > 0 {
        same_drawn(h, x, y, (n - 1) as nat);
        assert(told_alike(h, x[n - 1], y[n - 1], 8));
    }
}

/// Two passes from states that were set up alike read every block alike, with
/// the noise generator at the same place.
proof fn states_pass_alike(
    h: HeaderModel,
    a: StateModel,
    b: StateModel,
    blocks: Seq<Seq<u8>>,
    n: nat,
)
    requires
        set_up(h, a),
        b == (StateModel { channel: b.channel, ..a }),
        b.channel.len() == 16,
        forall|i: int| 0 <= i < h.channels ==> kin(h, #[trigger] a.channel[i], b.channel[i]),
    ensures
        ({
            let x = state_after(h, a, blocks, n);
            let y = state_after(h, b, blocks, n);
            &&& x == (StateModel { channel: x.channel, ..a })
            &&& y == (StateModel { channel: y.channel, ..a })
            &&& x.channel.len() == 16
            &&& y.channel.len() == 16
            &&& forall|i: int|
                0 <= i < h.channels ==> kin(h, #[trigger] x.channel[i], y.channel[i])
                    && x.channel[i].coded_count == coded_bands(h, x.channel[i].channel_type)
        }),
        random_before(h, a, blocks, n) == random_before(h, b, blocks, n),
    decreases n,
{
    assert forall|i: int| 0 <= i < h.channels implies kin(
        h,
        #[trigger] b.channel[i],
        b.channel[i],
    ) by {
        assert(kin(h, a.channel[i], b.channel[i]));
    }
    blocks_keep(h, a, blocks, n);
    blocks_keep(h, b, blocks, n);
    let x = state_after(h, a, blocks, n);
    let y = state_after(h, b, blocks, n);
    assert forall|i: int| 0 <= i < h.channels implies kin(h, #[trigger] x.channel[i], y.channel[i])
        && x.channel[i].coded_count == coded_bands(h, x.channel[i].channel_type) by {
        assert(kin(h, a.channel[i], x.channel[i]));
        assert(kin(h, b.channel[i], y.channel[i]));
        assert(kin(h, a.channel[i], b.channel[i]));
    }
    if n > 0 {
        let m = (n - 1) as nat;
        states_pass_alike(h, a, b, blocks, m);
        alike_by_kin(
            h,
            state_after(h, a, blocks, m),
            state_after(h, b, blocks, m),
            blocks[n - 1],
        );
    }
}

/// A decoder that was reset, read any `k` blocks, drew any noise and was reset
/// again reads every block of its stream as it did in the first pass: the same
/// blocks are refused, the others give the same values, and their missing bands
/// are filled in the same way. It also stands at the start of the stream again,
/// so that the same samples are kept.
pub proof fn second_pass_is_the_first(
    decoder: &HcaDecoder,
    history: Seq<Seq<u8>>,
    k: nat,
    random: u32,
    b: nat,
)
    requires
        decoder.wf(),
        decoder@.state.is_valid,
        scale_room(decoder@.header),
        b < decoder@.header.frame_count,
    ensures
        ({
            let h = decoder@.header;
            let blocks = all_blocks(decoder@);
            let first = rewound(decoder@);
            let read = state_after(h, first.state, history, k);
            let used = StreamModel { state: StateModel { random, ..read }, ..decoder@ };
            let second = rewound(used);
            &&& second.next == first.next == 0
            &&& second.delay == first.delay
            &&& second.written == first.written
            &&& reads_alike(
                h,
                state_after(h, first.state, blocks, b),
                state_after(h, second.state, blocks, b),
                blocks[b as int],
            )
            &&& random_before(h, first.state, blocks, b) == random_before(
                h,
                second.state,
                blocks,
                b,
            )
        }),
{
    let h = decoder@.header;
    let blocks = all_blocks(decoder@);
    let first = rewound(decoder@).state;
    stream_is_kin(decoder);
    blocks_keep(h, first, history, k);
    let read = state_after(h, first, history, k);
    let second = StateModel { random: HCA_DEFAULT_RANDOM, ..read };
    assert forall|i: int| 0 <= i < h.channels implies kin(
        h,
        #[trigger] first.channel[i],
        second.channel[i],
    ) by {
        assert(kin(h, first.channel[i], read.channel[i]));
    }
    states_pass_alike(h, first, second, blocks, b);
    alike_by_kin(
        h,
        state_after(h, first, blocks, b),
        state_after(h, second, blocks, b),
        blocks[b as int],
    );
}

} // verus!
