//! HCA decoder core: whole blocks.

use vstd::prelude::*;
use crate::acb::utf::wrap32;
use crate::hca::bitreader::{countable, peeked, BitReader};
use crate::hca::crc::crc16;
use crate::hca::decoder::{
    channel_types, channels_typed, coded_bands, header_wf, ChannelModel, ClHca, HcaError,
    HeaderModel, StChannel, StateModel, HCA_VERSION_200,
};
use crate::hca::unpack::{
    calculate_resolution, dequantize_coefficients, dequantized, intensity_of, resolved,
    scale_factors_of, scales_have_room, unpack_intensity, unpack_scale_factors, Unpacked,
};

verus! {

/// Reading the channels of a block: where it stands, or why it failed.
pub struct BlockState {
    pub error: Option<HcaError>,
    pub channels: Seq<ChannelModel>,
    pub pos: nat,
}

/// A channel's scale factors, then its intensities, then its resolutions.
#[verifier::opaque]
pub open spec fn channel_unpacked(
    h: HeaderModel,
    ath: Seq<u8>,
    noise: u32,
    d: Seq<u8>,
    c: ChannelModel,
    p: nat,
) -> Unpacked {
    let u = scale_factors_of(h, d, c, p);
    if u.error is Some {
        u
    } else {
        let v = intensity_of(h, d, u.c, u.pos);
        if v.error is Some { v } else { Unpacked { c: resolved(h, ath, noise, v.c), ..v } }
    }
}

/// The first `n` channels of a block, one after the other.
pub open spec fn channels_unpacked(
    h: HeaderModel,
    ath: Seq<u8>,
    noise: u32,
    d: Seq<u8>,
    cs: Seq<ChannelModel>,
    p: nat,
    n: nat,
) -> BlockState
    decreases n,
{
    if n == 0 {
        BlockState { error: None, channels: cs, pos: p }
    } else {
        let i = n - 1;
        let s = channels_unpacked(h, ath, noise, d, cs, p, i as nat);
        if s.error is Some {
            s
        } else {
            let u = channel_unpacked(h, ath, noise, d, s.channels[i], s.pos);
            BlockState { error: u.error, channels: s.channels.update(i, u.c), pos: u.pos }
        }
    }
}

/// The quantized values of a subframe of the first `n` channels.
pub open spec fn subframe_dequantized(
    d: Seq<u8>,
    cs: Seq<ChannelModel>,
    p: nat,
    subframe: int,
    n: nat,
) -> (Seq<ChannelModel>, nat)
    decreases n,
{
    if n == 0 {
        (cs, p)
    } else {
        let i = n - 1;
        let (done, q) = subframe_dequantized(d, cs, p, subframe, i as nat);
        let (c, r) = dequantized(d, done[i], q, subframe);
        (done.update(i, c), r)
    }
}

/// The quantized values of the first `n` subframes of all channels.
pub open spec fn frames_dequantized(
    d: Seq<u8>,
    cs: Seq<ChannelModel>,
    p: nat,
    channels: nat,
    n: nat,
) -> (Seq<ChannelModel>, nat)
    decreases n,
{
    if n == 0 {
        (cs, p)
    } else {
        let (done, q) = frames_dequantized(d, cs, p, channels, (n - 1) as nat);
        subframe_dequantized(d, done, q, n - 1, channels)
    }
}

/// Bytes with the first `n` looked up in a cipher table.
pub open spec fn deciphered(table: Seq<u8>, d: Seq<u8>, n: nat) -> Seq<u8> {
    Seq::new(d.len(), |i: int| if i < n { table[d[i] as int] } else { d[i] })
}

/// What a block holds once it is readable.
pub open spec fn block_plain(h: HeaderModel, st: StateModel, d: Seq<u8>) -> Seq<u8> {
    if h.ciph_type != 0 { deciphered(st.cipher_table, d, h.frame_size as nat) } else { d }
}

/// Why a block cannot be read at all, if so.
pub open spec fn block_refused(h: HeaderModel, st: StateModel, d: Seq<u8>) -> Option<HcaError> {
    if !st.is_valid || d.len() < h.frame_size {
        Some(HcaError::InvalidParams)
    } else if peeked(d, 0, 16) != 0xFFFF {
        Some(HcaError::SyncError)
    } else if crc16(d.subrange(0, h.frame_size as int)) != 0 {
        Some(HcaError::ChecksumFailed)
    } else {
        None
    }
}

/// The noise level of a block: nine bits of level, less seven bits of boundary.
pub open spec fn packed_noise(d: Seq<u8>) -> u32 {
    wrap32(peeked(d, 16, 9) * 256 - peeked(d, 25, 7))
}

/// A block after its channels and all its quantized values were read.
pub open spec fn block_unpacked(h: HeaderModel, st: StateModel, plain: Seq<u8>) -> BlockState {
    let n = h.channels as nat;
    let s = channels_unpacked(h, st.ath_curve, packed_noise(plain), plain, st.channel, 32, n);
    if s.error is Some {
        s
    } else {
        let (cs, q) = frames_dequantized(plain, s.channels, s.pos, n, 8);
        BlockState { error: None, channels: cs, pos: q }
    }
}

/// Whether the scales of every channel have room: in older versions those of
/// the high-frequency groups, else the coded ones with a place behind them.
pub open spec fn scale_room(h: HeaderModel) -> bool {
    if h.version <= HCA_VERSION_200 {
        h.hfr_group_count <= 128
    } else {
        h.hfr_group_count == 0 || h.base_band_count + h.stereo_band_count + h.hfr_group_count
            != 128
    }
}

/// What a failed block says.
pub open spec fn error_of(h: HeaderModel, st: StateModel, d: Seq<u8>) -> Option<HcaError> {
    match block_refused(h, st, d) {
        Some(e) => Some(e),
        None => block_unpacked(h, st, block_plain(h, st, d)).error,
    }
}

/// The channels after a block.
pub open spec fn channels_after(h: HeaderModel, st: StateModel, d: Seq<u8>) -> Seq<ChannelModel> {
    if block_refused(h, st, d) is Some {
        st.channel
    } else {
        block_unpacked(h, st, block_plain(h, st, d)).channels
    }
}

/// The bytes of a block after it was read: deciphered unless it was refused.
pub open spec fn bytes_after(h: HeaderModel, st: StateModel, d: Seq<u8>) -> Seq<u8> {
    if block_refused(h, st, d) is Some { d } else { block_plain(h, st, d) }
}

/// Whether two channels have the same type and number of coded bands.
pub open spec fn same_kind(a: ChannelModel, b: ChannelModel) -> bool {
    a.channel_type == b.channel_type && a.coded_count == b.coded_count
}

pub(crate) proof fn channel_kind_kept(
    h: HeaderModel,
    ath: Seq<u8>,
    noise: u32,
    d: Seq<u8>,
    c: ChannelModel,
    p: nat,
)
    ensures
        same_kind(channel_unpacked(h, ath, noise, d, c, p).c, c),
{
    reveal(channel_unpacked);
}

/// Looks the first bytes up in a cipher table.
pub fn cipher_decrypt(table: &[u8; 256], data: &mut Vec<u8>, n: usize)
    requires
        n <= old(data)@.len(),
    ensures
        final(data)@ == deciphered(table@, old(data)@, n as nat),
{
    let ghost before = data@;
    let mut i: usize = 0;
    while i < n
        invariant
            i <= n <= data@.len(),
            data@ =~= deciphered(table@, before, i as nat),
            before.len() == data@.len(),
        decreases n - i,
    {
        let b: u8 = data[i];
        data.set(i, table[b as usize]);
        i += 1;
    }
}

/// Reads scale factors, intensities and resolutions of one channel.
fn unpack_channel(
    channel: &mut StChannel,
    br: &mut BitReader,
    ath: &[u8; 128],
    packed: u32,
    groups: u32,
    version: u32,
    limits: (u8, u8),
    Ghost(h): Ghost<HeaderModel>,
) -> (r: Result<(), HcaError>)
    requires
        h.hfr_group_count == groups,
        h.version == version,
        h.min_resolution == limits.0,
        h.max_resolution == limits.1,
        limits.0 <= limits.1 <= 15,
        version <= HCA_VERSION_200 ==> groups <= 128,
        old(channel).coded_count <= 128,
        scales_have_room(h, old(channel)@),
        countable(old(br).bytes().len()),
        old(br).pos() <= 0x1_0000,
    ensures
        ({
            let u = channel_unpacked(h, ath@, packed, old(br).bytes(), old(channel)@, old(br).pos());
            &&& final(channel)@ == u.c
            &&& match u.error {
                Some(e) => r == Err::<(), HcaError>(e),
                None => r is Ok && final(br).pos() == u.pos,
            }
        }),
        final(br).bytes() == old(br).bytes(),
        final(br).pos() <= old(br).pos() + 2400,
        r is Ok ==> channel_bounded(final(channel)@),
{
    reveal(channel_unpacked);
    unpack_scale_factors(channel, br, groups, version, Ghost(h))?;
    unpack_intensity(channel, br, groups, version, Ghost(h))?;
    calculate_resolution(channel, ath, packed, limits.0, limits.1, Ghost(h));
    Ok(())
}

impl ClHca {
    /// Whether the scales of every channel have room.
    pub fn has_scale_room(&self) -> (r: bool)
        ensures
            r == scale_room(self.header()),
    {
        if self.version <= HCA_VERSION_200 {
            self.hfr_group_count <= 128
        } else {
            self.hfr_group_count == 0 || self.base_band_count as u64 + self.stereo_band_count as u64
                + self.hfr_group_count as u64 != 128
        }
    }

    /// Reads a block up to its quantized values and returns the position
    /// behind them. The block is deciphered in place.
    pub fn decode_block_unpack(&mut self, data: &mut Vec<u8>) -> (r: Result<usize, HcaError>)
        requires
            old(self).wf(),
            scale_room(old(self).header()),
            countable(old(data)@.len()),
        ensures
            final(self).wf(),
            final(self).header() == old(self).header(),
            final(self).state() == (StateModel {
                channel: channels_after(old(self).header(), old(self).state(), old(data)@),
                ..old(self).state()
            }),
            final(data)@ == bytes_after(old(self).header(), old(self).state(), old(data)@),
            match error_of(old(self).header(), old(self).state(), old(data)@) {
                Some(e) => r == Err::<usize, HcaError>(e),
                None => {
                    &&& r is Ok
                    &&& r->Ok_0 == block_unpacked(
                        old(self).header(),
                        old(self).state(),
                        final(data)@,
                    ).pos
                    &&& r->Ok_0 <= 0x10_0000
                },
            },
    {
        let ghost st = self.state();
        assert(StateModel { channel: st.channel, ..st } == st);
        if !self.is_valid {
            return Err(HcaError::InvalidParams);
        }
        let size: usize = self.frame_size as usize;
        if data.len() < size {
            return Err(HcaError::InvalidParams);
        }
        let mut start = BitReader::new(data.as_slice());
        let sync: u32 = start.read(16);
        if sync != 0xFFFF {
            return Err(HcaError::SyncError);
        }
        let frame = crate::bytes::copy_range(data.as_slice(), 0, size);
        if self.crc.checksum(frame.as_slice()) != 0 {
            return Err(HcaError::ChecksumFailed);
        }
        if self.ciph_type != 0 {
            cipher_decrypt(&self.cipher_table, data, size);
        }
        let ghost d = data@;
        let mut br = BitReader::with_offset(data.as_slice(), 2);
        proof {
            vstd::arithmetic::power2::lemma2_to64();
            vstd::arithmetic::power2::lemma2_to64_rest();
            crate::hca::bitreader::peeked_bound(d, 16, 9);
            crate::hca::bitreader::peeked_bound(d, 25, 7);
        }
        let level: u32 = br.read(9);
        let boundary: u32 = br.read(7);
        let packed: u32 = ((0x1_0000_0000 + level as u64 * 256 - boundary as u64)
            % 0x1_0000_0000) as u32;
        assert(packed == packed_noise(d));
        self.unpack_channels(&mut br, packed)?;
        self.dequantize_frames(&mut br);
        Ok(br.position())
    }

    /// Reads scale factors, intensities and resolutions of all channels.
    fn unpack_channels(&mut self, br: &mut BitReader, packed: u32) -> (r: Result<(), HcaError>)
        requires
            old(self).wf(),
            old(self).is_valid,
            scale_room(old(self).header()),
            countable(old(br).bytes().len()),
            old(br).pos() == 32,
        ensures
            ({
                let h = old(self).header();
                let st = old(self).state();
                let s = channels_unpacked(
                    h,
                    st.ath_curve,
                    packed,
                    old(br).bytes(),
                    st.channel,
                    32,
                    h.channels as nat,
                );
                &&& match s.error {
                    Some(e) => r == Err::<(), HcaError>(e),
                    None => r is Ok && final(br).pos() == s.pos,
                }
                &&& final(self).state() == (StateModel { channel: s.channels, ..st })
            }),
            final(self).header() == old(self).header(),
            final(self).wf(),
            final(br).bytes() == old(br).bytes(),
            final(br).pos() <= 0x1_0000,
            r is Ok ==> final(self).resolutions_bounded(),
    {
        let ghost h = self.header();
        let ghost st = self.state();
        let ghost d = br.bytes();
        let total: usize = self.channels as usize;
        let ath = self.ath_curve;
        let groups: u32 = self.hfr_group_count;
        let version: u32 = self.version;
        let low: u8 = self.min_resolution as u8;
        let high: u8 = self.max_resolution as u8;
        let mut ch: usize = 0;
        while ch < total
            invariant
                ch <= total == h.channels,
                total <= 16,
                h == self.header(),
                h == old(self).header(),
                header_wf(h),
                scale_room(h),
                st == old(self).state(),
                st.is_valid,
                self.crc == old(self).crc,
                self.crc.wf(),
                ath@ == st.ath_curve,
                groups == h.hfr_group_count,
                version <= HCA_VERSION_200 ==> groups <= 128,
                version == h.version,
                low == h.min_resolution,
                high == h.max_resolution,
                low <= high <= 15,
                countable(d.len()),
                br.bytes() == d,
                d == old(br).bytes(),
                br.pos() <= 32 + 2400 * ch,
                channels_typed(h, self.state().channel),
                ({
                    let s = channels_unpacked(h, st.ath_curve, packed, d, st.channel, 32, ch as nat);
                    &&& s.error is None
                    &&& s.pos == br.pos()
                    &&& self.state() == (StateModel { channel: s.channels, ..st })
                }),
                forall|k: int|
                    0 <= k < ch ==> channel_bounded(#[trigger] self.state().channel[k]),
            decreases total - ch,
        {
            let ghost s = channels_unpacked(h, st.ath_curve, packed, d, st.channel, 32, ch as nat);
            let ghost c = s.channels[ch as int];
            let ghost u = channel_unpacked(h, st.ath_curve, packed, d, c, s.pos);
            let ghost was = self.state().channel;
            assert(c == self.channel@[ch as int]@);
            let mut one: StChannel = self.channel[ch];
            proof {
                channel_kind_kept(h, st.ath_curve, packed, d, c, s.pos);
                assert(was[ch as int].coded_count == coded_bands(h, channel_types(h)[ch as int]));
                if u.error is Some {
                    channels_error_stays(
                        h,
                        st.ath_curve,
                        packed,
                        d,
                        st.channel,
                        32,
                        (ch + 1) as nat,
                        total as nat,
                    );
                }
            }
            let outcome = unpack_channel(
                &mut one,
                br,
                &ath,
                packed,
                groups,
                version,
                (low, high),
                Ghost(h),
            );
            self.channel[ch] = one;
            assert(self.state().channel =~= was.update(ch as int, u.c));
            assert(channels_typed(h, self.state().channel));
            outcome?;
            ch += 1;
        }
        Ok(())
    }

    /// Whether all resolutions are at most fifteen.
    pub open spec fn resolutions_bounded(&self) -> bool {
        forall|k: int|
            0 <= k < self.channels ==> channel_bounded(#[trigger] self.state().channel[k])
    }

    /// Reads the quantized values of all subframes.
    fn dequantize_frames(&mut self, br: &mut BitReader)
        requires
            old(self).wf(),
            old(self).is_valid,
            old(self).resolutions_bounded(),
            countable(old(br).bytes().len()),
            old(br).pos() <= 0x1_0000,
        ensures
            ({
                let st = old(self).state();
                let (cs, q) = frames_dequantized(
                    old(br).bytes(),
                    st.channel,
                    old(br).pos(),
                    old(self).header().channels as nat,
                    8,
                );
                final(self).state() == (StateModel { channel: cs, ..st }) && final(br).pos() == q
            }),
            final(self).header() == old(self).header(),
            final(self).wf(),
            final(br).bytes() == old(br).bytes(),
            final(br).pos() <= 0x10_0000,
    {
        let ghost h = self.header();
        let ghost st = self.state();
        let ghost d = br.bytes();
        let ghost p = br.pos();
        let total: usize = self.channels as usize;
        let mut subframe: usize = 0;
        while subframe < 8
            invariant
                subframe <= 8,
                total == h.channels,
                total <= 16,
                h == self.header(),
                h == old(self).header(),
                self.wf(),
                self.is_valid,
                self.resolutions_bounded(),
                st == old(self).state(),
                countable(d.len()),
                br.bytes() == d,
                d == old(br).bytes(),
                p == old(br).pos(),
                p <= 0x1_0000,
                br.pos() <= p + 24576 * subframe,
                ({
                    let (cs, q) = frames_dequantized(d, st.channel, p, total as nat, subframe as nat);
                    self.state() == (StateModel { channel: cs, ..st }) && br.pos() == q
                }),
            decreases 8 - subframe,
        {
            let ghost before = self.state().channel;
            let ghost q = br.pos();
            let mut ch: usize = 0;
            while ch < total
                invariant
                    ch <= total == h.channels,
                    total <= 16,
                    subframe < 8,
                    h == self.header(),
                    h == old(self).header(),
                    self.wf(),
                    self.is_valid,
                    self.resolutions_bounded(),
                    st == old(self).state(),
                    countable(d.len()),
                    br.bytes() == d,
                    q <= p + 24576 * subframe,
                    p <= 0x1_0000,
                    br.pos() <= q + 1536 * ch,
                    ({
                        let (cs, e) = subframe_dequantized(d, before, q, subframe as int, ch as nat);
                        self.state() == (StateModel { channel: cs, ..st }) && br.pos() == e
                    }),
                decreases total - ch,
            {
                let ghost was = self.state().channel;
                let ghost c = was[ch as int];
                assert(c == self.channel@[ch as int]@);
                assert(channel_bounded(c));
                let mut one: StChannel = self.channel[ch];
                dequantize_coefficients(&mut one, br, subframe);
                self.channel[ch] = one;
                assert(self.state().channel =~= was.update(ch as int, one@));
                assert(same_kind(one@, c));
                assert(channel_bounded(one@));
                assert(channels_typed(h, self.state().channel));
                ch += 1;
            }
            subframe += 1;
        }
    }
}

/// Whether the resolutions of a channel are at most fifteen and its bands at
/// most 128.
pub open spec fn channel_bounded(c: ChannelModel) -> bool {
    &&& c.resolution.len() == 128
    &&& forall|i: int| 0 <= i < 128 ==> #[trigger] c.resolution[i] <= 15
    &&& c.coded_count <= 128
}

proof fn channels_error_stays(
    h: HeaderModel,
    ath: Seq<u8>,
    noise: u32,
    d: Seq<u8>,
    cs: Seq<ChannelModel>,
    p: nat,
    n: nat,
    m: nat,
)
    requires
        channels_unpacked(h, ath, noise, d, cs, p, n).error is Some,
        n <= m,
    ensures
        channels_unpacked(h, ath, noise, d, cs, p, m) == channels_unpacked(
            h,
            ath,
            noise,
            d,
            cs,
            p,
            n,
        ),
    decreases m,
{
    if n < m {
        channels_error_stays(h, ath, noise, d, cs, p, n, (m - 1) as nat);
    }
}

} // verus!
