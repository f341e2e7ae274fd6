//! Which bands are rebuilt from which others, and how a decoded block is
//! judged.

use vstd::prelude::*;
use crate::acb::utf::wrap32;
use crate::hca::bitreader::countable;
use crate::hca::bitreader::peeked;
use crate::hca::block::{
    block_plain, block_refused, block_unpacked, bytes_after, channel_kind_kept, channel_unpacked,
    channels_after, channels_unpacked, error_of, frames_dequantized, packed_noise, scale_room,
    subframe_dequantized,
};
use crate::hca::unpack::{
    extra_scales, intensity_of, resolutions, scale_deltas, scale_factors_of, sorted_bands,
};
use crate::hca::decoder::{
    header_wf, ChannelModel, ChannelType, ClHca, HeaderModel, StateModel, HCA_DEFAULT_RANDOM,
    HCA_VERSION_200,
};

verus! {

/// The next number of the noise generator.
pub open spec fn next_random(r: u32) -> u32 {
    wrap32(r * 0x343FD + 0x269EC3)
}

/// The number of the noise generator after `n` steps.
pub open spec fn random_after(r: u32, n: nat) -> u32
    decreases n,
{
    if n == 0 { r } else { next_random(random_after(r, (n - 1) as nat)) }
}

/// A band to rebuild: the band, the band it is rebuilt from, and the place of
/// the ratio of their scales.
#[derive(Debug, Clone, Copy, PartialEq, Eq, Structural)]
pub struct BandCopy {
    pub to: usize,
    pub from: usize,
    pub scale: usize,
}

/// The place of a ratio of scales; ratios below the table take its first
/// entry.
pub open spec fn scale_place(to: u8, from: u8, middle: int) -> usize {
    let at = to - from + middle;
    if at < 0 { 0 } else { at as usize }
}

/// How band `i` without a resolution is filled: from a random band with one.
pub open spec fn noise_copy(c: ChannelModel, r: u32, i: nat) -> BandCopy {
    let drawn = random_after(r, i + 1);
    let at = 128 - c.valid_count + ((drawn % 0x8000) * c.valid_count) / 0x8000;
    let to = c.noises[i as int];
    let from = c.noises[at];
    BandCopy {
        to: to as usize,
        from: from as usize,
        scale: scale_place(c.scale_factors[to as int], c.scale_factors[from as int], 62),
    }
}

/// Whether bands without a resolution are filled with noise.
pub open spec fn noise_wanted(h: HeaderModel, c: ChannelModel) -> bool {
    &&& h.min_resolution == 0
    &&& c.valid_count > 0
    &&& c.noise_count > 0
    &&& h.ms_stereo == 0 || c.channel_type == ChannelType::StereoPrimary
}

/// Whether the band lists of a channel name bands.
pub open spec fn lists_sound(c: ChannelModel) -> bool {
    &&& c.noise_count + c.valid_count <= 128
    &&& c.noises.len() == 128
    &&& c.scale_factors.len() == 128
    &&& forall|i: int| 0 <= i < 128 ==> #[trigger] c.noises[i] < 128
}

/// How the bands without a resolution are filled, in order.
pub open spec fn noise_copies(h: HeaderModel, c: ChannelModel, r: u32) -> Seq<BandCopy> {
    if noise_wanted(h, c) {
        Seq::new(c.noise_count, |i: int| noise_copy(c, r, i as nat))
    } else {
        Seq::empty()
    }
}

/// Rebuilding high bands: the next band to fill, the band it takes, and what
/// was filled so far.
pub struct HighState {
    pub high: int,
    pub low: int,
    pub copies: Seq<BandCopy>,
}

/// The groups that walk down the low bands; later ones stay on one band.
pub open spec fn walking_groups(h: HeaderModel) -> int {
    if h.version <= HCA_VERSION_200 {
        h.hfr_group_count as int
    } else {
        h.hfr_group_count as int / 2
    }
}

/// The high bands after `b` bands of group `g`; nothing is filled past the
/// last band or below the first.
pub open spec fn group_filled(h: HeaderModel, c: ChannelModel, s: HighState, g: int, b: nat) -> HighState
    decreases b,
{
    if b == 0 {
        s
    } else {
        let s = group_filled(h, c, s, g, (b - 1) as nat);
        if s.high >= h.total_band_count || s.low < 0 {
            s
        } else {
            let scale = c.scale_factors[128 - h.hfr_group_count + g];
            HighState {
                high: s.high + 1,
                low: s.low - if g >= walking_groups(h) { 0int } else { 1 },
                copies: s.copies.push(
                    BandCopy {
                        to: s.high as usize,
                        from: s.low as usize,
                        scale: scale_place(scale, c.scale_factors[s.low], 63),
                    },
                ),
            }
        }
    }
}

/// The high bands after `g` groups.
pub open spec fn groups_filled(h: HeaderModel, c: ChannelModel, g: nat) -> HighState
    decreases g,
{
    if g == 0 {
        let start = (h.stereo_band_count + h.base_band_count) as int;
        HighState { high: start, low: start - 1, copies: Seq::empty() }
    } else {
        group_filled(
            h,
            c,
            groups_filled(h, c, (g - 1) as nat),
            g - 1,
            h.bands_per_hfr_group as nat,
        )
    }
}

/// Whether a channel has high bands to rebuild.
pub open spec fn high_wanted(h: HeaderModel, c: ChannelModel) -> bool {
    h.bands_per_hfr_group != 0 && c.channel_type != ChannelType::StereoSecondary
}

/// How the high bands are filled, in order, and the band that is cleared at
/// last: the one before the next to fill.
pub open spec fn high_copies(h: HeaderModel, c: ChannelModel) -> (Seq<BandCopy>, Option<usize>) {
    if high_wanted(h, c) {
        let s = groups_filled(h, c, h.hfr_group_count as nat);
        (s.copies, if s.high > 0 { Some((s.high - 1) as usize) } else { None })
    } else {
        (Seq::empty(), None)
    }
}

/// With more coded bands than there are, no high band is filled.
proof fn nothing_fills(h: HeaderModel, c: ChannelModel, n: nat)
    requires
        h.base_band_count + h.stereo_band_count >= h.total_band_count,
    ensures
        groups_filled(h, c, n) == groups_filled(h, c, 0),
    decreases n,
{
    if n > 0 {
        nothing_fills(h, c, (n - 1) as nat);
        group_stays(h, c, groups_filled(h, c, 0), n - 1, h.bands_per_hfr_group as nat);
    }
}

proof fn group_stays(h: HeaderModel, c: ChannelModel, s: HighState, g: int, b: nat)
    requires
        s.high >= h.total_band_count,
    ensures
        group_filled(h, c, s, g, b) == s,
    decreases b,
{
    if b > 0 {
        group_stays(h, c, s, g, (b - 1) as nat);
    }
}

/// The place of a ratio of scales.
fn scale_at(to: u8, from: u8, middle: i32) -> (r: usize)
    requires
        0 <= middle <= 63,
    ensures
        r == scale_place(to, from, middle as int),
{
    let at: i32 = to as i32 - from as i32 + middle;
    if at < 0 {
        0
    } else {
        at as usize
    }
}

impl ClHca {
    /// How the bands of a channel without a resolution are filled. The noise
    /// generator moves on.
    pub fn reconstruct_noise(&mut self, ch: usize) -> (r: Vec<BandCopy>)
        requires
            ch < 16,
            lists_sound(old(self).state().channel[ch as int]),
        ensures
            ({
                let h = old(self).header();
                let st = old(self).state();
                let c = st.channel[ch as int];
                &&& r@ == noise_copies(h, c, st.random)
                &&& final(self).state() == (StateModel {
                    random: random_after(st.random, r@.len()),
                    ..st
                })
            }),
            final(self).header() == old(self).header(),
            final(self).crc == old(self).crc,
    {
        let ghost h = self.header();
        let ghost st = self.state();
        let ghost c = st.channel[ch as int];
        let mut out: Vec<BandCopy> = Vec::new();
        assert(out@ =~= Seq::empty());
        assert(self.channel@[ch as int]@ == c);
        if self.min_resolution > 0 {
            return out;
        }
        let total: usize = self.channel[ch].noise_count;
        let valid: usize = self.channel[ch].valid_count;
        if valid == 0 || total == 0 {
            return out;
        }
        if !(self.ms_stereo == 0 || self.channel[ch].channel_type == ChannelType::StereoPrimary) {
            return out;
        }
        let mut random: u32 = self.random;
        let mut i: usize = 0;
        while i < total
            invariant
                i <= total == c.noise_count,
                ch < 16,
                valid == c.valid_count,
                valid > 0,
                lists_sound(c),
                h == self.header(),
                h == old(self).header(),
                st == self.state(),
                st == old(self).state(),
                c == st.channel[ch as int],
                self.crc == old(self).crc,
                self.channel@[ch as int]@ == c,
                random == random_after(st.random, i as nat),
                out@ =~= Seq::new(i as nat, |k: int| noise_copy(c, st.random, k as nat)),
            decreases total - i,
        {
            assert(random * 0x343FD + 0x269EC3 <= u64::MAX);
            random = ((random as u64 * 0x343FD + 0x269EC3) % 0x1_0000_0000) as u32;
            let drawn: u64 = (random % 0x8000) as u64;
            assert(drawn * valid <= 0x7FFF * 128 && drawn * valid / 0x8000 < valid)
                by (nonlinear_arith)
                requires
                    0 <= drawn <= 0x7FFF,
                    0 < valid <= 128,
            ;
            let at: usize = 128 - valid + (drawn * valid as u64 / 0x8000) as usize;
            let to: u8 = self.channel[ch].noises[i];
            let from: u8 = self.channel[ch].noises[at];
            assert(to == c.noises[i as int] && from == c.noises[at as int]);
            let scale: usize = scale_at(
                self.channel[ch].scale_factors[to as usize],
                self.channel[ch].scale_factors[from as usize],
                62,
            );
            out.push(BandCopy { to: to as usize, from: from as usize, scale });
            i += 1;
        }
        self.random = random;
        out
    }

    /// How the high bands of a channel are filled, and the band that is
    /// cleared at last.
    pub fn reconstruct_high_frequency(&self, ch: usize) -> (r: (Vec<BandCopy>, Option<usize>))
        requires
            ch < 16,
            header_wf(self.header()),
        ensures
            (r.0@, r.1) == high_copies(self.header(), self.state().channel[ch as int]),
    {
        let ghost h = self.header();
        let ghost c = self.state().channel[ch as int];
        assert(self.channel@[ch as int]@ == c);
        let mut out: Vec<BandCopy> = Vec::new();
        assert(out@ =~= Seq::empty());
        if self.bands_per_hfr_group == 0 {
            return (out, None);
        }
        if self.channel[ch].channel_type == ChannelType::StereoSecondary {
            return (out, None);
        }
        let start: usize = (self.stereo_band_count + self.base_band_count) as usize;
        let total: usize = self.total_band_count as usize;
        let groups: usize = self.hfr_group_count as usize;
        let bands: usize = self.bands_per_hfr_group as usize;
        let walking: usize = if self.version <= HCA_VERSION_200 { groups } else { groups / 2 };
        if start > total {
            proof {
                nothing_fills(h, c, h.hfr_group_count as nat);
            }
            return (out, Some(start - 1));
        }
        proof {
            let left = h.total_band_count - h.base_band_count - h.stereo_band_count;
            assert((left + bands - 1) / bands as int <= left) by (nonlinear_arith)
                requires
                    bands >= 1,
                    left >= 0,
            ;
            assert(groups <= 128);
        }
        let mut high: usize = start;
        let mut low: i32 = start as i32 - 1;
        let mut g: usize = 0;
        while g < groups
            invariant
                g <= groups == h.hfr_group_count,
                groups <= 128,
                ch < 16,
                h == self.header(),
                self.channel@[ch as int]@ == c,
                total == h.total_band_count,
                total <= 128,
                bands == h.bands_per_hfr_group,
                walking == walking_groups(h),
                low < high <= total,
                low >= -1,
                ({
                    let s = groups_filled(h, c, g as nat);
                    s.high == high && s.low == low && s.copies == out@
                }),
            decreases groups - g,
        {
            let ghost before = groups_filled(h, c, g as nat);
            let mut b: usize = 0;
            while b < bands
                invariant
                    b <= bands == h.bands_per_hfr_group,
                    g < groups == h.hfr_group_count,
                    groups <= 128,
                    ch < 16,
                    h == self.header(),
                    self.channel@[ch as int]@ == c,
                    total == h.total_band_count,
                    total <= 128,
                    walking == walking_groups(h),
                    low < high <= total,
                    low >= -1,
                    ({
                        let s = group_filled(h, c, before, g as int, b as nat);
                        s.high == high && s.low == low && s.copies == out@
                    }),
                decreases bands - b,
            {
                if high < total && low >= 0 {
                    let scale: u8 = self.channel[ch].scale_factors[128 - groups + g];
                    let from: usize = low as usize;
                    let place: usize = scale_at(scale, self.channel[ch].scale_factors[from], 63);
                    out.push(BandCopy { to: high, from, scale: place });
                    high += 1;
                    if g < walking {
                        low -= 1;
                    }
                }
                b += 1;
            }
            g += 1;
        }
        let cleared = if high > 0 { Some(high - 1) } else { None };
        (out, cleared)
    }

    /// Reset decoder state between files: a ready decoder starts its noise
    /// generator anew.
    pub fn decode_reset(&mut self)
        ensures
            final(self).header() == old(self).header(),
            final(self).crc == old(self).crc,
            final(self).state() == if old(self).state().is_valid {
                StateModel { random: HCA_DEFAULT_RANDOM, ..old(self).state() }
            } else {
                old(self).state()
            },
    {
        if !self.is_valid {
            return;
        }
        self.random = HCA_DEFAULT_RANDOM;
    }

    /// Whether a block holds nothing between its sync word and its checksum.
    pub fn is_empty_block(&self, data: &[u8]) -> (r: bool)
        requires
            data@.len() >= 4,
        ensures
            r == blank_between(data@, 2, data@.len() - 2),
    {
        blank(data, 2, data.len() - 2)
    }

    /// Judges where reading a block ended: -2 where too few bits are left, -1
    /// where something other than zero stands behind, 0 else.
    pub fn validate_bitreader(&self, data: &[u8], bit_pos: usize) -> (r: i32)
        requires
            bit_pos + 14 <= 8 * self.header().frame_size ==> self.header().frame_size - 2
                <= data@.len(),
            bit_pos <= usize::MAX - 14,
        ensures
            r == tail_verdict(self.header().frame_size as int, data@, bit_pos as int),
    {
        let bits_max: u64 = self.frame_size as u64 * 8;
        if bit_pos as u64 + 14 > bits_max {
            return -2;
        }
        let byte_start: usize = if bit_pos % 8 != 0 { bit_pos / 8 + 1 } else { bit_pos / 8 };
        let end: usize = self.frame_size as usize - 2;
        if byte_start <= end && !blank(data, byte_start, end) {
            return -1;
        }
        0
    }

    /// Judges a decoded block by its clipped and its blank samples: a clipped
    /// block counts its clips, at least two; a silent one is 0; one with
    /// a silent first channel beside another that is not is 3; any other is 1.
    pub fn calculate_score(
        &self,
        clips: i32,
        blanks: i32,
        channel_blanks: &[i32],
        frame_samples: usize,
    ) -> (r: i32)
        requires
            self.header().channels >= 2 ==> channel_blanks@.len() >= 2,
            self.header().channels * frame_samples <= i32::MAX,
            frame_samples <= i32::MAX,
            self.header().channels <= i32::MAX,
        ensures
            r == block_score(
                clips as int,
                blanks as int,
                channel_blanks@[0] as int,
                channel_blanks@[1] as int,
                self.header().channels as int,
                frame_samples as int,
            ),
    {
        if clips == 1 {
            return 2;
        }
        if clips > 1 {
            return clips;
        }
        let all: i64 = self.channels as i64 * frame_samples as i64;
        if blanks as i64 == all {
            return 0;
        }
        if self.channels >= 2 && channel_blanks[0] == frame_samples as i32 && channel_blanks[1]
            != frame_samples as i32 {
            return 3;
        }
        1
    }

    /// Reads a block to test a key. A verdict that needs no samples is
    /// returned: 0 for an empty block, -1 for one that cannot be read, or what
    /// its tail says; none where the samples decide.
    pub fn test_block_unpack(&mut self, data: &mut Vec<u8>) -> (r: Option<i32>)
        requires
            old(self).wf(),
            scale_room(old(self).header()),
            countable(old(data)@.len()),
            old(data)@.len() >= 4,
        ensures
            final(self).wf(),
            final(self).header() == old(self).header(),
            ({
                let h = old(self).header();
                let st = old(self).state();
                let d = old(data)@;
                if blank_between(d, 2, d.len() - 2) {
                    &&& r == Some(0i32)
                    &&& final(self).state() == st
                    &&& final(data)@ == d
                } else {
                    &&& final(self).state() == (StateModel {
                        channel: channels_after(h, st, d),
                        ..st
                    })
                    &&& final(data)@ == bytes_after(h, st, d)
                    &&& if error_of(h, st, d) is Some {
                        r == Some(-1i32)
                    } else {
                        let verdict = tail_verdict(
                            h.frame_size as int,
                            final(data)@,
                            block_unpacked(h, st, final(data)@).pos as int,
                        );
                        r == if verdict != 0 { Some(verdict) } else { None }
                    }
                }
            }),
    {
        if self.is_empty_block(data.as_slice()) {
            return Some(0);
        }
        let bit_pos: usize = match self.decode_block_unpack(data) {
            Ok(pos) => pos,
            Err(_) => {
                return Some(-1);
            },
        };
        let verdict: i32 = self.validate_bitreader(data.as_slice(), bit_pos);
        if verdict != 0 {
            return Some(verdict);
        }
        None
    }
}

/// Sorting bands by whether they have a resolution keeps the lists sound.
proof fn sorting_sound(c: ChannelModel, res: Seq<u8>, n: nat)
    requires
        lists_sound(c),
        n <= 128,
    ensures
        ({
            let s = sorted_bands(c, res, n);
            &&& s.noises.len() == 128
            &&& s.noise_count + s.valid_count <= n
            &&& forall|i: int| 0 <= i < 128 ==> #[trigger] s.noises[i] < 128
        }),
    decreases n,
{
    if n > 0 {
        sorting_sound(c, res, (n - 1) as nat);
    }
}

/// Reading scale factors keeps their number.
proof fn scales_counted(d: Seq<u8>, held: Seq<u8>, p: nat, bits: nat, n: nat)
    requires
        held.len() == 128,
        n <= 128,
    ensures
        scale_deltas(d, held, p, bits, n).values.len() == 128,
    decreases n,
{
    if n > 1 {
        scales_counted(d, held, p, bits, (n - 1) as nat);
    }
}

/// Reading a channel keeps its band lists sound.
proof fn channel_lists_sound(
    h: HeaderModel,
    ath: Seq<u8>,
    noise: u32,
    d: Seq<u8>,
    c: ChannelModel,
    p: nat,
)
    requires
        lists_sound(c),
        c.coded_count <= 128,
    ensures
        lists_sound(channel_unpacked(h, ath, noise, d, c, p).c),
{
    reveal(channel_unpacked);
    let bits = peeked(d, p, 3);
    let count = c.coded_count + extra_scales(h, c.channel_type);
    if count <= 128 {
        scales_counted(d, c.scale_factors, p + 3, bits, count);
    }
    let u = scale_factors_of(h, d, c, p);
    if u.error is None {
        let v = intensity_of(h, d, u.c, u.pos);
        if v.error is None {
            let res = resolutions(h, ath, noise, v.c, v.c.coded_count);
            assert(lists_sound(v.c));
            sorting_sound(v.c, res, v.c.coded_count);
        }
    }
}

proof fn channels_lists_sound(
    h: HeaderModel,
    ath: Seq<u8>,
    noise: u32,
    d: Seq<u8>,
    cs: Seq<ChannelModel>,
    p: nat,
    n: nat,
)
    requires
        n <= cs.len(),
        all_lists_sound(cs),
    ensures
        all_lists_sound(channels_unpacked(h, ath, noise, d, cs, p, n).channels),
        channels_unpacked(h, ath, noise, d, cs, p, n).channels.len() == cs.len(),
    decreases n,
{
    if n > 0 {
        let i = n - 1;
        channels_lists_sound(h, ath, noise, d, cs, p, i as nat);
        let s = channels_unpacked(h, ath, noise, d, cs, p, i as nat);
        if s.error is None {
            channel_lists_sound(h, ath, noise, d, s.channels[i], s.pos);
            channel_kind_kept(h, ath, noise, d, s.channels[i], s.pos);
        }
    }
}

/// Whether the band lists of all channels name bands.
pub open spec fn all_lists_sound(cs: Seq<ChannelModel>) -> bool {
    forall|i: int| 0 <= i < cs.len() ==> lists_sound(#[trigger] cs[i]) && cs[i].coded_count <= 128
}

proof fn subframe_lists_sound(d: Seq<u8>, cs: Seq<ChannelModel>, p: nat, subframe: int, n: nat)
    requires
        n <= cs.len(),
        all_lists_sound(cs),
    ensures
        all_lists_sound(subframe_dequantized(d, cs, p, subframe, n).0),
        subframe_dequantized(d, cs, p, subframe, n).0.len() == cs.len(),
    decreases n,
{
    if n > 0 {
        let i = n - 1;
        subframe_lists_sound(d, cs, p, subframe, i as nat);
    }
}

proof fn frames_lists_sound(d: Seq<u8>, cs: Seq<ChannelModel>, p: nat, channels: nat, n: nat)
    requires
        channels <= cs.len(),
        all_lists_sound(cs),
    ensures
        all_lists_sound(frames_dequantized(d, cs, p, channels, n).0),
        frames_dequantized(d, cs, p, channels, n).0.len() == cs.len(),
    decreases n,
{
    if n > 0 {
        frames_lists_sound(d, cs, p, channels, (n - 1) as nat);
        let (done, q) = frames_dequantized(d, cs, p, channels, (n - 1) as nat);
        subframe_lists_sound(d, done, q, n - 1, channels);
    }
}

/// Whatever a block holds, the band lists of the channels name bands
/// afterwards, so that noise can be filled in.
pub proof fn block_lists_sound(h: HeaderModel, st: StateModel, d: Seq<u8>)
    requires
        h.channels <= st.channel.len(),
        all_lists_sound(st.channel),
    ensures
        all_lists_sound(channels_after(h, st, d)),
{
    if block_refused(h, st, d) is None {
        let plain = block_plain(h, st, d);
        let n = h.channels as nat;
        let noise = packed_noise(plain);
        channels_lists_sound(h, st.ath_curve, noise, plain, st.channel, 32, n);
        let s = channels_unpacked(h, st.ath_curve, noise, plain, st.channel, 32, n);
        if s.error is None {
            frames_lists_sound(plain, s.channels, s.pos, n, 8);
        }
    }
}

/// Whether all bytes in a range are zero.
pub open spec fn blank_between(d: Seq<u8>, from: int, to: int) -> bool {
    forall|i: int| from <= i < to ==> #[trigger] d[i] == 0
}

/// Whether all bytes in a range are zero.
fn blank(d: &[u8], from: usize, to: usize) -> (r: bool)
    requires
        from <= to <= d@.len(),
    ensures
        r == blank_between(d@, from as int, to as int),
{
    let mut i: usize = from;
    while i < to
        invariant
            from <= i <= to <= d@.len(),
            blank_between(d@, from as int, i as int),
        decreases to - i,
    {
        if d[i] != 0 {
            return false;
        }
        i += 1;
    }
    true
}

/// The verdict on the tail of a block.
pub open spec fn tail_verdict(frame_size: int, d: Seq<u8>, bit_pos: int) -> i32 {
    if bit_pos + 14 > 8 * frame_size {
        (-2) as i32
    } else if !blank_between(d, (bit_pos + 7) / 8, frame_size - 2) {
        (-1) as i32
    } else {
        0
    }
}

/// The verdict on the samples of a block.
pub open spec fn block_score(
    clips: int,
    blanks: int,
    first_blanks: int,
    second_blanks: int,
    channels: int,
    frame_samples: int,
) -> int {
    if clips == 1 {
        2
    } else if clips > 1 {
        clips
    } else if blanks == channels * frame_samples {
        0
    } else if channels >= 2 && first_blanks == frame_samples && second_blanks != frame_samples {
        3
    } else {
        1
    }
}

/// Samples of several channels, taken in turn.
pub fn interleave_samples(waves: &Vec<Vec<i16>>, count: usize) -> (r: Vec<i16>)
    requires
        forall|c: int| 0 <= c < waves@.len() ==> (#[trigger] waves@[c])@.len() == count,
        waves@.len() * count <= usize::MAX,
    ensures
        r@.len() == waves@.len() * count,
        forall|k: int, c: int|
            0 <= k < count && 0 <= c < waves@.len() ==> r@[k * waves@.len() + c] == #[trigger] waves@[c]@[k],
{
    let n: usize = waves.len();
    let mut out: Vec<i16> = Vec::new();
    let mut k: usize = 0;
    while k < count
        invariant
            k <= count,
            n == waves@.len(),
            out@.len() == k * n,
            forall|c: int| 0 <= c < waves@.len() ==> (#[trigger] waves@[c])@.len() == count,
            forall|j: int, c: int|
                0 <= j < k && 0 <= c < n ==> out@[j * n + c] == #[trigger] waves@[c]@[j],
        decreases count - k,
    {
        let ghost before = out@;
        let mut c: usize = 0;
        while c < n
            invariant
                k < count,
                c <= n == waves@.len(),
                before.len() == k * n,
                out@.len() == k * n + c,
                forall|x: int| 0 <= x < waves@.len() ==> (#[trigger] waves@[x])@.len() == count,
                forall|x: int| 0 <= x < k * n ==> #[trigger] out@[x] == before[x],
                forall|x: int| 0 <= x < c ==> out@[k * n + x] == #[trigger] waves@[x]@[k as int],
            decreases n - c,
        {
            out.push(waves[c][k]);
            c += 1;
        }
        proof {
            assert((k + 1) * n == k * n + n) by (nonlinear_arith);
            assert forall|j: int, x: int| 0 <= j < k + 1 && 0 <= x < n implies out@[j * n + x]
                == #[trigger] waves@[x]@[j] by {
                if j < k {
                    assert(j * n + x < k * n) by (nonlinear_arith)
                        requires
                            j + 1 <= k,
                            0 <= x < n,
                    ;
                    assert(j * n >= 0) by (nonlinear_arith)
                        requires
                            j >= 0,
                            n >= 0,
                    ;
                    assert(out@[j * n + x] == before[j * n + x]);
                }
            }
        }
        k += 1;
    }
    assert(count * n == waves@.len() * count) by (nonlinear_arith)
        requires
            n == waves@.len(),
    ;
    out
}

} // verus!
