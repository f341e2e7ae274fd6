//! HCA decoder core: the header.

use vstd::prelude::*;
use vstd::arithmetic::power2::lemma2_to64;
use crate::acb::utf::wrap32;
use crate::bytes::zeros;
use crate::hca::bitreader::{countable, peeked, peeked_bound, BitReader};
use crate::hca::crc::{crc16, Crc16Slices};
use crate::reader::utf8_lossy;

verus! {

pub const HCA_VERSION_101: u32 = 0x0101;

pub const HCA_VERSION_102: u32 = 0x0102;

pub const HCA_VERSION_103: u32 = 0x0103;

pub const HCA_VERSION_200: u32 = 0x0200;

pub const HCA_VERSION_300: u32 = 0x0300;

pub const HCA_MIN_FRAME_SIZE: u32 = 0x8;

pub const HCA_MAX_FRAME_SIZE: u32 = 0xFFFF;

/// Every letter of a chunk name may have its top bit set.
pub const HCA_MASK: u32 = 0x7F7F_7F7F;

pub const HCA_SUBFRAMES: usize = 8;

pub const HCA_SAMPLES_PER_SUBFRAME: usize = 128;

pub const HCA_SAMPLES_PER_FRAME: usize = 1024;

pub const HCA_MIN_CHANNELS: u32 = 1;

pub const HCA_MAX_CHANNELS: usize = 16;

pub const HCA_MIN_SAMPLE_RATE: u32 = 1;

pub const HCA_MAX_SAMPLE_RATE: u32 = 0x7F_FFFF;

pub const HCA_DEFAULT_RANDOM: u32 = 1;

/// The bit pattern of the single-precision number one.
pub const ONE_BITS: u32 = 0x3f80_0000;

/// HCA decoder errors.
#[derive(Debug, Clone, Copy)]
pub enum HcaError {
    InvalidParams,
    InvalidHeader,
    ChecksumFailed,
    SyncError,
    UnpackError(&'static str),
    BitreaderError,
    UnsupportedVersion(u32),
    NotInitialized,
}

/// Channel types for stereo processing.
#[derive(Debug, Clone, Copy, PartialEq, Eq, Structural)]
pub enum ChannelType {
    Discrete,
    StereoPrimary,
    StereoSecondary,
}

impl Default for ChannelType {
    fn default() -> (r: Self)
        ensures
            r == ChannelType::Discrete,
    {
        ChannelType::Discrete
    }
}

/// Channel types with a stereo pair at `primary`.
pub open spec fn with_pair(types: Seq<ChannelType>, primary: int) -> Seq<ChannelType> {
    types.update(primary, ChannelType::StereoPrimary).update(
        primary + 1,
        ChannelType::StereoSecondary,
    )
}

/// Channel types with the stereo pairs of a track whose channels start at
/// `base`.
pub open spec fn with_track(
    types: Seq<ChannelType>,
    base: int,
    channels_per_track: int,
    channel_config: u32,
) -> Seq<ChannelType> {
    let t = with_pair(types, base);
    if channels_per_track == 4 && channel_config == 0 {
        with_pair(t, base + 2)
    } else if channels_per_track == 5 && channel_config <= 2 {
        with_pair(t, base + 3)
    } else if channels_per_track == 6 || channels_per_track == 7 {
        with_pair(t, base + 4)
    } else if channels_per_track == 8 {
        with_pair(with_pair(t, base + 4), base + 6)
    } else {
        t
    }
}

/// Where the last stereo pair of a track ends, counted from its first channel.
pub open spec fn pairs_end(channels_per_track: int, channel_config: u32) -> int {
    if channels_per_track == 4 && channel_config == 0 {
        4
    } else if channels_per_track == 5 && channel_config <= 2 {
        5
    } else if channels_per_track == 6 || channels_per_track == 7 {
        6
    } else if channels_per_track == 8 {
        8
    } else {
        2
    }
}

fn set_stereo_pair(channel_types: &mut [ChannelType], primary: usize)
    requires
        primary + 1 < old(channel_types)@.len(),
    ensures
        final(channel_types)@ == with_pair(old(channel_types)@, primary as int),
{
    channel_types[primary] = ChannelType::StereoPrimary;
    channel_types[primary + 1] = ChannelType::StereoSecondary;
}

/// Marks the stereo pairs of a track whose channels start at `base`.
fn assign_from(
    channel_types: &mut [ChannelType],
    base: usize,
    channels_per_track: usize,
    channel_config: u32,
)
    requires
        base + pairs_end(channels_per_track as int, channel_config) <= old(channel_types)@.len(),
    ensures
        final(channel_types)@ == with_track(
            old(channel_types)@,
            base as int,
            channels_per_track as int,
            channel_config,
        ),
{
    assert(channel_types@.len() == channel_types.len());
    set_stereo_pair(channel_types, base);
    if channels_per_track == 4 && channel_config == 0 {
        set_stereo_pair(channel_types, base + 2);
    } else if channels_per_track == 5 && channel_config <= 2 {
        set_stereo_pair(channel_types, base + 3);
    } else if channels_per_track == 6 || channels_per_track == 7 {
        set_stereo_pair(channel_types, base + 4);
    } else if channels_per_track == 8 {
        set_stereo_pair(channel_types, base + 4);
        set_stereo_pair(channel_types, base + 6);
    }
}

/// Marks the stereo pairs of a track that has all the channels.
pub fn assign_stereo_channel_types(
    channel_types: &mut [ChannelType],
    channels_per_track: usize,
    channel_config: u32,
)
    requires
        pairs_end(channels_per_track as int, channel_config) <= old(channel_types)@.len(),
    ensures
        final(channel_types)@ == with_track(
            old(channel_types)@,
            0,
            channels_per_track as int,
            channel_config,
        ),
{
    assign_from(channel_types, 0, channels_per_track, channel_config);
}

/// Channel state for decoding: what the bit stream says of a channel.
#[derive(Debug, Clone, Copy)]
pub struct StChannel {
    pub channel_type: ChannelType,
    pub coded_count: usize,
    pub intensity: [u8; 8],
    pub scale_factors: [u8; 128],
    pub resolution: [u8; 128],
    pub noises: [u8; 128],
    pub noise_count: usize,
    pub valid_count: usize,
    /// The quantized value of each band, by subframe.
    pub codes: [[i32; 128]; 8],
}

/// What a channel holds.
pub struct ChannelModel {
    pub channel_type: ChannelType,
    pub coded_count: nat,
    pub intensity: Seq<u8>,
    pub scale_factors: Seq<u8>,
    pub resolution: Seq<u8>,
    pub noises: Seq<u8>,
    pub noise_count: nat,
    pub valid_count: nat,
    pub codes: Seq<Seq<i32>>,
}

/// The rows of a square of numbers.
pub open spec fn rows(a: [[i32; 128]; 8]) -> Seq<Seq<i32>> {
    a@.map_values(|r: [i32; 128]| r@)
}

impl View for StChannel {
    type V = ChannelModel;

    open spec fn view(&self) -> ChannelModel {
        ChannelModel {
            channel_type: self.channel_type,
            coded_count: self.coded_count as nat,
            intensity: self.intensity@,
            scale_factors: self.scale_factors@,
            resolution: self.resolution@,
            noises: self.noises@,
            noise_count: self.noise_count as nat,
            valid_count: self.valid_count as nat,
            codes: rows(self.codes),
        }
    }
}

/// A channel before anything was decoded.
pub open spec fn silent_channel() -> ChannelModel {
    ChannelModel {
        channel_type: ChannelType::Discrete,
        coded_count: 0,
        intensity: zeros(8),
        scale_factors: zeros(128),
        resolution: zeros(128),
        noises: zeros(128),
        noise_count: 0,
        valid_count: 0,
        codes: Seq::new(8, |i: int| Seq::new(128, |j: int| 0i32)),
    }
}

impl Default for StChannel {
    fn default() -> (r: Self)
        ensures
            r@ == silent_channel(),
    {
        let r = StChannel {
            channel_type: ChannelType::Discrete,
            coded_count: 0,
            intensity: [0; 8],
            scale_factors: [0; 128],
            resolution: [0; 128],
            noises: [0; 128],
            noise_count: 0,
            valid_count: 0,
            codes: [[0; 128]; 8],
        };
        assert(r.intensity@ =~= zeros(8));
        assert(r.scale_factors@ =~= zeros(128));
        assert(r.resolution@ =~= zeros(128));
        assert(r.noises@ =~= zeros(128));
        assert forall|i: int| 0 <= i < 8 implies rows(r.codes)[i] == Seq::new(
            128,
            |j: int| 0i32,
        ) by {
            assert(rows(r.codes)[i] =~= Seq::new(128, |j: int| 0i32));
        }
        assert(rows(r.codes) =~= silent_channel().codes);
        r
    }
}

/// HCA decoder information.
#[derive(Debug, Clone)]
pub struct HcaInfo {
    pub version: u32,
    pub header_size: u32,
    pub sampling_rate: u32,
    pub channel_count: u32,
    pub block_size: u32,
    pub block_count: u32,
    pub encoder_delay: u32,
    pub encoder_padding: u32,
    pub loop_enabled: bool,
    pub loop_start_block: u32,
    pub loop_end_block: u32,
    pub loop_start_delay: u32,
    pub loop_end_padding: u32,
    pub samples_per_block: usize,
    pub comment: String,
    pub encryption_enabled: bool,
}

/// A quotient rounded up; zero for the divisor zero.
pub open spec fn ceil_div(a: int, b: int) -> int {
    if b < 1 { 0 } else { (a + b - 1) / b }
}

/// Divides and rounds up; zero for the divisor zero.
pub fn header_ceil2(a: u32, b: u32) -> (r: u32)
    ensures
        r == ceil_div(a as int, b as int),
{
    if b < 1 {
        return 0;
    }
    let q: u64 = (a as u64 + b as u64 - 1) / b as u64;
    proof {
        assert(q <= a) by (nonlinear_arith)
            requires
                q == (a + b - 1) / b as int,
                b >= 1,
                a >= 0,
        ;
    }
    q as u32
}

/// A difference in 32 bits, without its borrow.
fn wrapping_gap(a: u32, b: u32) -> (r: u32)
    ensures
        r == wrap32(a - b),
{
    ((0x1_0000_0000 + a as u64 - b as u64) % 0x1_0000_0000) as u32
}

/// The header of a stream. The volume is the bit pattern of a
/// single-precision number.
pub struct HeaderModel {
    pub version: u32,
    pub header_size: u32,
    pub channels: u32,
    pub sample_rate: u32,
    pub frame_count: u32,
    pub encoder_delay: u32,
    pub encoder_padding: u32,
    pub frame_size: u32,
    pub min_resolution: u32,
    pub max_resolution: u32,
    pub track_count: u32,
    pub channel_config: u32,
    pub stereo_type: u32,
    pub total_band_count: u32,
    pub base_band_count: u32,
    pub stereo_band_count: u32,
    pub bands_per_hfr_group: u32,
    pub ms_stereo: u32,
    pub reserved: u32,
    pub vbr_max_frame_size: u32,
    pub vbr_noise_level: u32,
    pub ath_type: u32,
    pub loop_start_frame: u32,
    pub loop_end_frame: u32,
    pub loop_start_delay: u32,
    pub loop_end_padding: u32,
    pub loop_flag: bool,
    pub ciph_type: u32,
    pub keycode: u64,
    pub rva_volume: u32,
    pub comment_len: nat,
    pub comment: Seq<u8>,
    pub hfr_group_count: u32,
}

/// Main HCA decoder structure. The volume is the bit pattern of a
/// single-precision number.
#[derive(Debug, Clone)]
pub struct ClHca {
    pub is_valid: bool,
    pub version: u32,
    pub header_size: u32,
    pub channels: u32,
    pub sample_rate: u32,
    pub frame_count: u32,
    pub encoder_delay: u32,
    pub encoder_padding: u32,
    pub frame_size: u32,
    pub min_resolution: u32,
    pub max_resolution: u32,
    pub track_count: u32,
    pub channel_config: u32,
    pub stereo_type: u32,
    pub total_band_count: u32,
    pub base_band_count: u32,
    pub stereo_band_count: u32,
    pub bands_per_hfr_group: u32,
    pub ms_stereo: u32,
    pub reserved: u32,
    pub vbr_max_frame_size: u32,
    pub vbr_noise_level: u32,
    pub ath_type: u32,
    pub loop_start_frame: u32,
    pub loop_end_frame: u32,
    pub loop_start_delay: u32,
    pub loop_end_padding: u32,
    pub loop_flag: bool,
    pub ciph_type: u32,
    pub keycode: u64,
    pub rva_volume: u32,
    pub comment_len: usize,
    pub comment: [u8; 256],
    pub hfr_group_count: u32,
    pub ath_curve: [u8; 128],
    pub cipher_table: [u8; 256],
    pub random: u32,
    pub channel: [StChannel; 16],
    pub crc: Crc16Slices,
}

/// What a decoder holds beside the header.
pub struct StateModel {
    pub is_valid: bool,
    pub ath_curve: Seq<u8>,
    pub cipher_table: Seq<u8>,
    pub random: u32,
    pub channel: Seq<ChannelModel>,
}

/// The models of all channels.
pub open spec fn channel_models(a: [StChannel; 16]) -> Seq<ChannelModel> {
    a@.map_values(|c: StChannel| c@)
}

/// Reading a header: where it stands, or why it failed.
pub struct Stage {
    pub error: Option<HcaError>,
    pub h: HeaderModel,
    pub pos: nat,
}

impl Stage {
    pub open spec fn start(h: HeaderModel, pos: nat) -> Stage {
        Stage { error: None, h, pos }
    }
}

/// Whether a result is what a stage says.
pub open spec fn stage_result(r: Result<(), HcaError>, s: Stage) -> bool {
    match s.error {
        Some(e) => r == Err::<(), HcaError>(e),
        None => r is Ok,
    }
}

/// The number of `n` bits at `p`, as a 32-bit value.
#[verifier::opaque]
pub open spec fn num(d: Seq<u8>, p: nat, n: nat) -> u32 {
    peeked(d, p, n) as u32
}

/// The name of the chunk at `p`, without the top bits of its letters.
pub open spec fn tag(d: Seq<u8>, p: nat) -> u32 {
    num(d, p, 32) & HCA_MASK
}

/// Whether a version is known.
pub open spec fn version_known(v: u32) -> bool {
    v == HCA_VERSION_101 || v == HCA_VERSION_102 || v == HCA_VERSION_103 || v == HCA_VERSION_200
        || v == HCA_VERSION_300
}

/// The signature, the version and the size; the whole header must have the
/// checksum zero.
#[verifier::opaque]
pub open spec fn base_header(d: Seq<u8>, s: Stage) -> Stage {
    if tag(d, s.pos) != 0x4843_4100 {
        Stage { error: Some(HcaError::InvalidHeader), ..s }
    } else {
        let h = HeaderModel {
            version: num(d, s.pos + 32, 16),
            header_size: num(d, s.pos + 48, 16),
            ..s.h
        };
        let error = if !version_known(h.version) {
            Some(HcaError::UnsupportedVersion(h.version))
        } else if d.len() < h.header_size {
            Some(HcaError::InvalidHeader)
        } else if crc16(d.subrange(0, h.header_size as int)) != 0 {
            Some(HcaError::ChecksumFailed)
        } else {
            None
        };
        Stage { error, h, pos: s.pos + 64 }
    }
}

/// The format chunk.
#[verifier::opaque]
pub open spec fn fmt_chunk(d: Seq<u8>, s: Stage) -> Stage {
    if tag(d, s.pos) != 0x666D_7400 {
        Stage { error: Some(HcaError::InvalidHeader), ..s }
    } else {
        let p = s.pos + 32;
        let h = HeaderModel {
            channels: num(d, p, 8),
            sample_rate: num(d, p + 8, 24),
            frame_count: num(d, p + 32, 32),
            encoder_delay: num(d, p + 64, 16),
            encoder_padding: num(d, p + 80, 16),
            ..s.h
        };
        let bad = h.channels < HCA_MIN_CHANNELS || h.channels > 16 || h.frame_count == 0
            || h.sample_rate < HCA_MIN_SAMPLE_RATE || h.sample_rate > HCA_MAX_SAMPLE_RATE;
        Stage {
            error: if bad { Some(HcaError::InvalidHeader) } else { None },
            h,
            pos: s.pos + 128,
        }
    }
}

/// The compression chunk.
#[verifier::opaque]
pub open spec fn comp_chunk(d: Seq<u8>, s: Stage) -> Stage {
    let p = s.pos + 32;
    Stage {
        error: None,
        h: HeaderModel {
            frame_size: num(d, p, 16),
            min_resolution: num(d, p + 16, 8),
            max_resolution: num(d, p + 24, 8),
            track_count: num(d, p + 32, 8),
            channel_config: num(d, p + 40, 8),
            total_band_count: num(d, p + 48, 8),
            base_band_count: num(d, p + 56, 8),
            stereo_band_count: num(d, p + 64, 8),
            bands_per_hfr_group: num(d, p + 72, 8),
            ms_stereo: num(d, p + 80, 8),
            reserved: num(d, p + 88, 8),
            ..s.h
        },
        pos: s.pos + 128,
    }
}

/// The older decoding chunk. The bands left over by the base bands are stereo
/// bands, counted in 32 bits.
#[verifier::opaque]
pub open spec fn dec_chunk(d: Seq<u8>, s: Stage) -> Stage {
    let p = s.pos + 32;
    let total = (num(d, p + 32, 8) + 1) as u32;
    let stereo_type = num(d, p + 56, 8);
    let base = if stereo_type == 0 { total } else { (num(d, p + 40, 8) + 1) as u32 };
    Stage {
        error: None,
        h: HeaderModel {
            frame_size: num(d, p, 16),
            min_resolution: num(d, p + 16, 8),
            max_resolution: num(d, p + 24, 8),
            total_band_count: total,
            base_band_count: base,
            track_count: num(d, p + 48, 4),
            channel_config: num(d, p + 52, 4),
            stereo_type,
            stereo_band_count: wrap32(total - base),
            bands_per_hfr_group: 0,
            ..s.h
        },
        pos: s.pos + 96,
    }
}

/// The compression chunk, in one of its two forms.
#[verifier::opaque]
pub open spec fn comp_dec_chunk(d: Seq<u8>, s: Stage) -> Stage {
    if tag(d, s.pos) == 0x636F_6D70 {
        comp_chunk(d, s)
    } else if tag(d, s.pos) == 0x6465_6300 {
        dec_chunk(d, s)
    } else {
        Stage { error: Some(HcaError::InvalidHeader), ..s }
    }
}

/// The optional chunk of variable bit rate, which needs a zero frame size.
#[verifier::opaque]
pub open spec fn vbr_chunk(d: Seq<u8>, s: Stage) -> Stage {
    if tag(d, s.pos) == 0x7662_7200 {
        let max = num(d, s.pos + 32, 16);
        let bad = s.h.frame_size != 0 || max <= 8 || max > 0x1FF;
        Stage {
            error: if bad { Some(HcaError::InvalidHeader) } else { None },
            h: HeaderModel {
                vbr_max_frame_size: max,
                vbr_noise_level: num(d, s.pos + 48, 16),
                ..s.h
            },
            pos: s.pos + 64,
        }
    } else {
        Stage { h: HeaderModel { vbr_max_frame_size: 0, vbr_noise_level: 0, ..s.h }, ..s }
    }
}

/// The optional chunk that picks the hearing threshold; older versions use it
/// by default.
#[verifier::opaque]
pub open spec fn ath_chunk(d: Seq<u8>, s: Stage) -> Stage {
    if tag(d, s.pos) == 0x6174_6800 {
        Stage {
            h: HeaderModel { ath_type: num(d, s.pos + 32, 16), ..s.h },
            pos: s.pos + 48,
            ..s
        }
    } else {
        Stage {
            h: HeaderModel {
                ath_type: if s.h.version < HCA_VERSION_200 { 1 } else { 0 },
                ..s.h
            },
            ..s
        }
    }
}

/// The optional loop chunk: a range of frames within the stream.
#[verifier::opaque]
pub open spec fn loop_chunk(d: Seq<u8>, s: Stage) -> Stage {
    if tag(d, s.pos) == 0x6C6F_6F70 {
        let start = num(d, s.pos + 32, 32);
        let end = num(d, s.pos + 64, 32);
        let good = start <= end && end < s.h.frame_count;
        Stage {
            error: if good { None } else { Some(HcaError::InvalidHeader) },
            h: HeaderModel {
                loop_start_frame: start,
                loop_end_frame: end,
                loop_start_delay: num(d, s.pos + 96, 16),
                loop_end_padding: num(d, s.pos + 112, 16),
                loop_flag: true,
                ..s.h
            },
            pos: s.pos + 128,
        }
    } else {
        Stage { h: HeaderModel { loop_flag: false, ..s.h }, ..s }
    }
}

/// The optional cipher chunk.
#[verifier::opaque]
pub open spec fn cipher_chunk(d: Seq<u8>, s: Stage) -> Stage {
    if tag(d, s.pos) == 0x6369_7068 {
        let t = num(d, s.pos + 32, 16);
        let good = t == 0 || t == 1 || t == 56;
        Stage {
            error: if good { None } else { Some(HcaError::InvalidHeader) },
            h: HeaderModel { ciph_type: t, ..s.h },
            pos: s.pos + 48,
        }
    } else {
        Stage { h: HeaderModel { ciph_type: 0, ..s.h }, ..s }
    }
}

/// The optional volume chunk.
#[verifier::opaque]
pub open spec fn rva_chunk(d: Seq<u8>, s: Stage) -> Stage {
    if tag(d, s.pos) == 0x7276_6100 {
        Stage {
            h: HeaderModel { rva_volume: num(d, s.pos + 32, 32), ..s.h },
            pos: s.pos + 64,
            ..s
        }
    } else {
        Stage { h: HeaderModel { rva_volume: ONE_BITS, ..s.h }, ..s }
    }
}

/// The optional comment, followed by a zero byte in its buffer.
#[verifier::opaque]
pub open spec fn comment_chunk(d: Seq<u8>, s: Stage) -> Stage {
    if tag(d, s.pos) == 0x636F_6D6D {
        let n = num(d, s.pos + 32, 8) as nat;
        Stage {
            h: HeaderModel {
                comment_len: n,
                comment: Seq::new(
                    256,
                    |i: int|
                        if i < n {
                            num(d, (s.pos + 40 + 8 * i) as nat, 8) as u8
                        } else if i == n {
                            0
                        } else {
                            s.h.comment[i]
                        },
                ),
                ..s.h
            },
            pos: s.pos + 40 + 8 * n,
            ..s
        }
    } else {
        Stage { h: HeaderModel { comment_len: 0, ..s.h }, ..s }
    }
}

/// All chunks in order.
pub open spec fn all_chunks(d: Seq<u8>, s: Stage) -> Stage {
    let s = fmt_chunk(d, s);
    let s = if s.error is Some { s } else { comp_dec_chunk(d, s) };
    let s = if s.error is Some { s } else { vbr_chunk(d, s) };
    let s = if s.error is Some { s } else { loop_chunk(d, ath_chunk(d, s)) };
    let s = if s.error is Some { s } else { cipher_chunk(d, s) };
    if s.error is Some { s } else { comment_chunk(d, rva_chunk(d, s)) }
}

/// Whether the frame size and the resolutions are accepted.
pub open spec fn frame_accepted(h: HeaderModel) -> bool {
    &&& HCA_MIN_FRAME_SIZE <= h.frame_size <= HCA_MAX_FRAME_SIZE
    &&& if h.version <= HCA_VERSION_200 {
        h.min_resolution == 1 && h.max_resolution == 15
    } else {
        h.min_resolution <= h.max_resolution <= 15
    }
}

/// The header with at least one track.
pub open spec fn with_one_track(h: HeaderModel) -> HeaderModel {
    HeaderModel { track_count: if h.track_count == 0 { 1 } else { h.track_count }, ..h }
}

/// Whether tracks and bands are accepted.
pub open spec fn bands_accepted(h: HeaderModel) -> bool {
    &&& h.track_count <= h.channels
    &&& h.total_band_count <= 128
    &&& h.base_band_count + h.stereo_band_count <= 128
    &&& h.bands_per_hfr_group <= 128
}

/// The number of high-frequency groups. The bands that are left for them count
/// in 32 bits.
pub open spec fn hfr_groups(h: HeaderModel) -> u32 {
    ceil_div(
        wrap32(h.total_band_count - h.base_band_count - h.stereo_band_count) as int,
        h.bands_per_hfr_group as int,
    ) as u32
}

/// The checks after the last chunk.
pub open spec fn checked(s: Stage) -> Stage {
    let h = with_one_track(s.h);
    if !frame_accepted(s.h) {
        Stage { error: Some(HcaError::InvalidHeader), ..s }
    } else if !bands_accepted(h) {
        Stage { error: Some(HcaError::InvalidHeader), h, ..s }
    } else {
        Stage { h: HeaderModel { hfr_group_count: hfr_groups(h), ..h }, ..s }
    }
}

/// Reading a whole header over what the decoder held before.
pub open spec fn header_of(d: Seq<u8>, before: HeaderModel) -> Stage {
    if d.len() < 8 {
        Stage { error: Some(HcaError::InvalidParams), h: before, pos: 0 }
    } else {
        let s = base_header(d, Stage::start(before, 0));
        let s = if s.error is Some { s } else { all_chunks(d, s) };
        if s.error is Some { s } else { checked(s) }
    }
}

/// What holds of every header that was accepted.
pub open spec fn header_wf(h: HeaderModel) -> bool {
    &&& version_known(h.version)
    &&& 1 <= h.channels <= 16
    &&& 1 <= h.track_count <= h.channels
    &&& h.frame_count > 0
    &&& 1 <= h.sample_rate <= HCA_MAX_SAMPLE_RATE
    &&& frame_accepted(h)
    &&& bands_accepted(h)
    &&& h.hfr_group_count == hfr_groups(h)
    &&& h.comment_len <= 255
    &&& h.encoder_delay <= 0xFFFF
    &&& h.encoder_padding <= 0xFFFF
    &&& h.loop_flag ==> h.loop_start_frame <= h.loop_end_frame < h.frame_count
}

/// The channel types after the pairs of the first `n` tracks of some channels
/// each.
pub open spec fn types_of(per_track: nat, config: u32, n: nat) -> Seq<ChannelType>
    decreases n,
{
    if n == 0 {
        Seq::new(16, |i: int| ChannelType::Discrete)
    } else {
        let m = (n - 1) as nat;
        with_track(types_of(per_track, config, m), (m * per_track) as int, per_track as int, config)
    }
}

/// The channel types of a stream.
pub open spec fn channel_types(h: HeaderModel) -> Seq<ChannelType> {
    let per_track = (h.channels / h.track_count) as nat;
    if h.stereo_band_count > 0 && per_track > 1 {
        types_of(per_track, h.channel_config, h.track_count as nat)
    } else {
        Seq::new(16, |i: int| ChannelType::Discrete)
    }
}

/// The bands that a channel of a type codes itself.
pub open spec fn coded_bands(h: HeaderModel, t: ChannelType) -> nat {
    if t == ChannelType::StereoSecondary {
        h.base_band_count as nat
    } else {
        (h.base_band_count + h.stereo_band_count) as nat
    }
}

/// A channel with the type and coded bands that the header gives it.
pub open spec fn typed_channel(h: HeaderModel, c: ChannelModel, i: int) -> ChannelModel {
    ChannelModel {
        channel_type: channel_types(h)[i],
        coded_count: coded_bands(h, channel_types(h)[i]),
        ..c
    }
}

/// All channels with the types that the header gives them; channels past the
/// last stay as they were.
pub open spec fn typed_channels(h: HeaderModel, cs: Seq<ChannelModel>) -> Seq<ChannelModel> {
    Seq::new(
        16,
        |i: int| if i < h.channels { typed_channel(h, cs[i], i) } else { cs[i] },
    )
}

impl ClHca {
    /// The header.
    pub open spec fn header(&self) -> HeaderModel {
        HeaderModel {
            version: self.version,
            header_size: self.header_size,
            channels: self.channels,
            sample_rate: self.sample_rate,
            frame_count: self.frame_count,
            encoder_delay: self.encoder_delay,
            encoder_padding: self.encoder_padding,
            frame_size: self.frame_size,
            min_resolution: self.min_resolution,
            max_resolution: self.max_resolution,
            track_count: self.track_count,
            channel_config: self.channel_config,
            stereo_type: self.stereo_type,
            total_band_count: self.total_band_count,
            base_band_count: self.base_band_count,
            stereo_band_count: self.stereo_band_count,
            bands_per_hfr_group: self.bands_per_hfr_group,
            ms_stereo: self.ms_stereo,
            reserved: self.reserved,
            vbr_max_frame_size: self.vbr_max_frame_size,
            vbr_noise_level: self.vbr_noise_level,
            ath_type: self.ath_type,
            loop_start_frame: self.loop_start_frame,
            loop_end_frame: self.loop_end_frame,
            loop_start_delay: self.loop_start_delay,
            loop_end_padding: self.loop_end_padding,
            loop_flag: self.loop_flag,
            ciph_type: self.ciph_type,
            keycode: self.keycode,
            rva_volume: self.rva_volume,
            comment_len: self.comment_len as nat,
            comment: self.comment@,
            hfr_group_count: self.hfr_group_count,
        }
    }

    /// Everything beside the header.
    pub open spec fn state(&self) -> StateModel {
        StateModel {
            is_valid: self.is_valid,
            ath_curve: self.ath_curve@,
            cipher_table: self.cipher_table@,
            random: self.random,
            channel: channel_models(self.channel),
        }
    }

    /// Whether the checksum tables are built, the comment lies in its buffer,
    /// and a valid decoder has an accepted header with its channels typed by
    /// it.
    pub open spec fn wf(&self) -> bool {
        &&& self.crc.wf()
        &&& self.header().comment_len <= 255
        &&& self.is_valid ==> {
            &&& header_wf(self.header())
            &&& channels_typed(self.header(), self.state().channel)
        }
    }

    /// Create a new HCA decoder instance.
    pub fn new() -> (r: Self)
        ensures
            r.wf(),
            r.header() == blank_header(),
            r.state() == blank_state(),
    {
        let silent = StChannel::default();
        let r = ClHca {
            is_valid: false,
            version: 0,
            header_size: 0,
            channels: 0,
            sample_rate: 0,
            frame_count: 0,
            encoder_delay: 0,
            encoder_padding: 0,
            frame_size: 0,
            min_resolution: 0,
            max_resolution: 0,
            track_count: 0,
            channel_config: 0,
            stereo_type: 0,
            total_band_count: 0,
            base_band_count: 0,
            stereo_band_count: 0,
            bands_per_hfr_group: 0,
            ms_stereo: 0,
            reserved: 0,
            vbr_max_frame_size: 0,
            vbr_noise_level: 0,
            ath_type: 0,
            loop_start_frame: 0,
            loop_end_frame: 0,
            loop_start_delay: 0,
            loop_end_padding: 0,
            loop_flag: false,
            ciph_type: 0,
            keycode: 0,
            rva_volume: ONE_BITS,
            comment_len: 0,
            comment: [0; 256],
            hfr_group_count: 0,
            ath_curve: [0; 128],
            cipher_table: [0; 256],
            random: HCA_DEFAULT_RANDOM,
            channel: [silent; 16],
            crc: Crc16Slices::build_crc16_slice(),
        };
        assert(r.comment@ =~= zeros(256));
        assert(r.ath_curve@ =~= zeros(128));
        assert(r.cipher_table@ =~= zeros(256));
        assert(channel_models(r.channel) =~= Seq::new(16, |i: int| silent_channel()));
        r
    }

    /// Clear and reset the decoder.
    pub fn clear(&mut self)
        ensures
            final(self).wf(),
            final(self).header() == blank_header(),
            final(self).state() == blank_state(),
    {
        *self = Self::new();
    }

    /// Set decryption key. A decoder that is ready takes the cipher table that
    /// belongs to the key.
    pub fn set_key(&mut self, keycode: u64, cipher_table: &[u8; 256])
        requires
            old(self).wf(),
        ensures
            final(self).wf(),
            final(self).header() == (HeaderModel { keycode, ..old(self).header() }),
            final(self).state() == if old(self).state().is_valid {
                StateModel { cipher_table: cipher_table@, ..old(self).state() }
            } else {
                old(self).state()
            },
    {
        self.keycode = keycode;
        if self.is_valid {
            self.cipher_table = *cipher_table;
        }
    }

    /// Whether the decoder is ready to decode blocks.
    pub fn is_ready(&self) -> (r: bool)
        ensures
            r == self.state().is_valid,
    {
        self.is_valid
    }

    /// Check if data is a valid HCA file: the size of the header, where there
    /// is one.
    pub fn is_hca_file(data: &[u8]) -> (r: Option<usize>)
        requires
            countable(data@.len()),
        ensures
            r == if data@.len() >= 8 && tag(data@, 0) == 0x4843_4100 && num(data@, 48, 16) != 0 {
                Some(num(data@, 48, 16) as usize)
            } else {
                None
            },
    {
        proof {
            reveal(num);
        }
        if data.len() < 8 {
            return None;
        }
        let mut br = BitReader::new(data);
        let sig: u32 = br.peek(32) & HCA_MASK;
        if sig == 0x4843_4100 {
            br.skip(48);
            let header_size: usize = br.read(16) as usize;
            if header_size == 0 {
                return None;
            }
            Some(header_size)
        } else {
            None
        }
    }

    /// Get decoder information.
    pub fn get_info(&self) -> (r: Result<HcaInfo, HcaError>)
        requires
            self.wf(),
        ensures
            r is Ok <==> self.state().is_valid,
            r is Err ==> r == Err::<HcaInfo, HcaError>(HcaError::NotInitialized),
            r is Ok ==> info_shows(r->Ok_0, self.header()),
    {
        if !self.is_valid {
            return Err(HcaError::NotInitialized);
        }
        Ok(self.header_info())
    }

    /// What the header says, whether the decoder is ready or not.
    pub fn header_info(&self) -> (r: HcaInfo)
        requires
            self.wf(),
        ensures
            info_shows(r, self.header()),
    {
        let comment = if self.comment_len > 0 {
            let text = crate::bytes::copy_range(self.comment.as_slice(), 0, self.comment_len);
            crate::reader::decode_utf8_lossy(text.as_slice())
        } else {
            String::new()
        };
        HcaInfo {
            version: self.version,
            header_size: self.header_size,
            sampling_rate: self.sample_rate,
            channel_count: self.channels,
            block_size: self.frame_size,
            block_count: self.frame_count,
            encoder_delay: self.encoder_delay,
            encoder_padding: self.encoder_padding,
            loop_enabled: self.loop_flag,
            loop_start_block: self.loop_start_frame,
            loop_end_block: self.loop_end_frame,
            loop_start_delay: self.loop_start_delay,
            loop_end_padding: self.loop_end_padding,
            samples_per_block: HCA_SAMPLES_PER_FRAME,
            comment,
            encryption_enabled: self.ciph_type == 56,
        }
    }

    /// Decode HCA header. The decoder is ready once
    /// `initialize_decoder_state` has given it its tables.
    pub fn decode_header(&mut self, data: &[u8]) -> (r: Result<(), HcaError>)
        requires
            countable(data@.len()),
            old(self).wf(),
        ensures
            final(self).wf(),
            stage_result(r, header_of(data@, old(self).header())),
            final(self).header() == header_of(data@, old(self).header()).h,
            r is Ok ==> header_wf(final(self).header()),
            final(self).state() == if data@.len() < 8 {
                old(self).state()
            } else {
                StateModel { is_valid: false, ..old(self).state() }
            },
    {
        if data.len() < 8 {
            return Err(HcaError::InvalidParams);
        }
        proof {
            comment_stays_within(data@, self.header());
        }
        self.is_valid = false;
        let mut br = BitReader::new(data);
        self.decode_base_header(&mut br, data)?;
        self.decode_chunks(&mut br)?;
        self.validate_frame_and_resolution()?;
        self.validate_tracks_and_bands()?;
        Ok(())
    }

    /// Reads the signature, the version and the size, and checks the sum.
    fn decode_base_header(&mut self, br: &mut BitReader, data: &[u8]) -> (r: Result<(), HcaError>)
        requires
            countable(old(br).bytes().len()),
            old(br).pos() <= 0x1_0000,
            data@ == old(br).bytes(),
            old(self).crc.wf(),
        ensures
            stage_after(
                r,
                base_header(old(br).bytes(), Stage::start(old(self).header(), old(br).pos())),
                final(self).header(),
                final(br).pos(),
            ),
            final(self).state() == old(self).state(),
            final(self).crc == old(self).crc,
            final(br).bytes() == old(br).bytes(),
            final(br).pos() <= old(br).pos() + 0x1000,
            r is Ok ==> version_known(final(self).version),
    {
        proof {
            reveal(base_header);
            reveal(num);
        }
        if (br.peek(32) & HCA_MASK) != 0x4843_4100 {
            return Err(HcaError::InvalidHeader);
        }
        br.skip(32);
        self.version = br.read(16);
        self.header_size = br.read(16);
        if self.version != HCA_VERSION_101 && self.version != HCA_VERSION_102 && self.version
            != HCA_VERSION_103 && self.version != HCA_VERSION_200 && self.version
            != HCA_VERSION_300 {
            return Err(HcaError::UnsupportedVersion(self.version));
        }
        if (data.len() as u64) < self.header_size as u64 {
            return Err(HcaError::InvalidHeader);
        }
        let head = crate::bytes::copy_range(data, 0, self.header_size as usize);
        if self.crc.checksum(head.as_slice()) != 0 {
            return Err(HcaError::ChecksumFailed);
        }
        Ok(())
    }

    /// Reads all chunks in order.
    fn decode_chunks(&mut self, br: &mut BitReader) -> (r: Result<(), HcaError>)
        requires
            countable(old(br).bytes().len()),
            old(br).pos() <= 0x1000,
        ensures
            stage_after(
                r,
                all_chunks(old(br).bytes(), Stage::start(old(self).header(), old(br).pos())),
                final(self).header(),
                final(br).pos(),
            ),
            final(self).state() == old(self).state(),
            final(self).crc == old(self).crc,
            r is Ok ==> chunks_accepted(final(self).header()) && final(self).version == old(
                self,
            ).version,
    {
        self.decode_fmt_chunk(br)?;
        self.decode_comp_dec_chunk(br)?;
        self.decode_vbr_chunk(br)?;
        self.decode_ath_chunk(br);
        self.decode_loop_chunk(br)?;
        self.decode_cipher_chunk(br)?;
        self.decode_rva_chunk(br);
        self.decode_comment_chunk(br);
        proof {
            chunks_accept(br.bytes(), Stage::start(old(self).header(), old(br).pos()));
        }
        Ok(())
    }

    /// Reads the format chunk.
    fn decode_fmt_chunk(&mut self, br: &mut BitReader) -> (r: Result<(), HcaError>)
        requires
            countable(old(br).bytes().len()),
            old(br).pos() <= 0x1_0000,
        ensures
            stage_after(
                r,
                fmt_chunk(old(br).bytes(), Stage::start(old(self).header(), old(br).pos())),
                final(self).header(),
                final(br).pos(),
            ),
            final(self).state() == old(self).state(),
            final(self).crc == old(self).crc,
            final(br).bytes() == old(br).bytes(),
            final(br).pos() <= old(br).pos() + 0x1000,
    {
        proof {
            reveal(fmt_chunk);
            reveal(num);
        }
        if (br.peek(32) & HCA_MASK) != 0x666D_7400 {
            return Err(HcaError::InvalidHeader);
        }
        br.skip(32);
        self.channels = br.read(8);
        self.sample_rate = br.read(24);
        self.frame_count = br.read(32);
        self.encoder_delay = br.read(16);
        self.encoder_padding = br.read(16);
        if self.channels < HCA_MIN_CHANNELS || self.channels > 16 {
            return Err(HcaError::InvalidHeader);
        }
        if self.frame_count == 0 {
            return Err(HcaError::InvalidHeader);
        }
        if self.sample_rate < HCA_MIN_SAMPLE_RATE || self.sample_rate > HCA_MAX_SAMPLE_RATE {
            return Err(HcaError::InvalidHeader);
        }
        Ok(())
    }

    /// Reads the compression chunk, in one of its two forms.
    fn decode_comp_dec_chunk(&mut self, br: &mut BitReader) -> (r: Result<(), HcaError>)
        requires
            countable(old(br).bytes().len()),
            old(br).pos() <= 0x1_0000,
        ensures
            stage_after(
                r,
                comp_dec_chunk(old(br).bytes(), Stage::start(old(self).header(), old(br).pos())),
                final(self).header(),
                final(br).pos(),
            ),
            final(self).state() == old(self).state(),
            final(self).crc == old(self).crc,
            final(br).bytes() == old(br).bytes(),
            final(br).pos() <= old(br).pos() + 0x1000,
    {
        proof {
            reveal(comp_dec_chunk);
            reveal(num);
        }
        let chunk_type: u32 = br.peek(32) & HCA_MASK;
        if chunk_type == 0x636F_6D70 {
            self.decode_comp_chunk(br);
            Ok(())
        } else if chunk_type == 0x6465_6300 {
            self.decode_dec_chunk(br);
            Ok(())
        } else {
            Err(HcaError::InvalidHeader)
        }
    }

    /// Reads the compression chunk.
    fn decode_comp_chunk(&mut self, br: &mut BitReader)
        requires
            countable(old(br).bytes().len()),
            old(br).pos() <= 0x1_0000,
        ensures
            stage_after(
                Ok(()),
                comp_chunk(old(br).bytes(), Stage::start(old(self).header(), old(br).pos())),
                final(self).header(),
                final(br).pos(),
            ),
            final(self).state() == old(self).state(),
            final(self).crc == old(self).crc,
            final(br).bytes() == old(br).bytes(),
            final(br).pos() <= old(br).pos() + 0x1000,
    {
        proof {
            reveal(comp_chunk);
            reveal(num);
        }
        br.skip(32);
        self.frame_size = br.read(16);
        self.min_resolution = br.read(8);
        self.max_resolution = br.read(8);
        self.track_count = br.read(8);
        self.channel_config = br.read(8);
        self.total_band_count = br.read(8);
        self.base_band_count = br.read(8);
        self.stereo_band_count = br.read(8);
        self.bands_per_hfr_group = br.read(8);
        self.ms_stereo = br.read(8);
        self.reserved = br.read(8);
    }

    /// Reads the older decoding chunk.
    fn decode_dec_chunk(&mut self, br: &mut BitReader)
        requires
            countable(old(br).bytes().len()),
            old(br).pos() <= 0x1_0000,
        ensures
            stage_after(
                Ok(()),
                dec_chunk(old(br).bytes(), Stage::start(old(self).header(), old(br).pos())),
                final(self).header(),
                final(br).pos(),
            ),
            final(self).state() == old(self).state(),
            final(self).crc == old(self).crc,
            final(br).bytes() == old(br).bytes(),
            final(br).pos() <= old(br).pos() + 0x1000,
    {
        proof {
            reveal(dec_chunk);
            reveal(num);
        }
        proof {
            lemma2_to64();
            peeked_bound(br.bytes(), br.pos() + 64, 8);
            peeked_bound(br.bytes(), br.pos() + 72, 8);
        }
        br.skip(32);
        self.frame_size = br.read(16);
        self.min_resolution = br.read(8);
        self.max_resolution = br.read(8);
        self.total_band_count = br.read(8) + 1;
        self.base_band_count = br.read(8) + 1;
        self.track_count = br.read(4);
        self.channel_config = br.read(4);
        self.stereo_type = br.read(8);
        if self.stereo_type == 0 {
            self.base_band_count = self.total_band_count;
        }
        self.stereo_band_count = wrapping_gap(self.total_band_count, self.base_band_count);
        self.bands_per_hfr_group = 0;
    }

    /// Reads the optional chunk of variable bit rate.
    fn decode_vbr_chunk(&mut self, br: &mut BitReader) -> (r: Result<(), HcaError>)
        requires
            countable(old(br).bytes().len()),
            old(br).pos() <= 0x1_0000,
        ensures
            stage_after(
                r,
                vbr_chunk(old(br).bytes(), Stage::start(old(self).header(), old(br).pos())),
                final(self).header(),
                final(br).pos(),
            ),
            final(self).state() == old(self).state(),
            final(self).crc == old(self).crc,
            final(br).bytes() == old(br).bytes(),
            final(br).pos() <= old(br).pos() + 0x1000,
    {
        proof {
            reveal(vbr_chunk);
            reveal(num);
        }
        if (br.peek(32) & HCA_MASK) == 0x7662_7200 {
            br.skip(32);
            self.vbr_max_frame_size = br.read(16);
            self.vbr_noise_level = br.read(16);
            if self.frame_size != 0 || self.vbr_max_frame_size <= 8 || self.vbr_max_frame_size
                > 0x1FF {
                return Err(HcaError::InvalidHeader);
            }
        } else {
            self.vbr_max_frame_size = 0;
            self.vbr_noise_level = 0;
        }
        Ok(())
    }

    /// Reads the optional chunk that picks the hearing threshold.
    fn decode_ath_chunk(&mut self, br: &mut BitReader)
        requires
            countable(old(br).bytes().len()),
            old(br).pos() <= 0x1_0000,
        ensures
            stage_after(
                Ok(()),
                ath_chunk(old(br).bytes(), Stage::start(old(self).header(), old(br).pos())),
                final(self).header(),
                final(br).pos(),
            ),
            final(self).state() == old(self).state(),
            final(self).crc == old(self).crc,
            final(br).bytes() == old(br).bytes(),
            final(br).pos() <= old(br).pos() + 0x1000,
    {
        proof {
            reveal(ath_chunk);
            reveal(num);
        }
        if (br.peek(32) & HCA_MASK) == 0x6174_6800 {
            br.skip(32);
            self.ath_type = br.read(16);
        } else {
            self.ath_type = if self.version < HCA_VERSION_200 { 1 } else { 0 };
        }
    }

    /// Reads the optional loop chunk.
    fn decode_loop_chunk(&mut self, br: &mut BitReader) -> (r: Result<(), HcaError>)
        requires
            countable(old(br).bytes().len()),
            old(br).pos() <= 0x1_0000,
        ensures
            stage_after(
                r,
                loop_chunk(old(br).bytes(), Stage::start(old(self).header(), old(br).pos())),
                final(self).header(),
                final(br).pos(),
            ),
            final(self).state() == old(self).state(),
            final(self).crc == old(self).crc,
            final(br).bytes() == old(br).bytes(),
            final(br).pos() <= old(br).pos() + 0x1000,
    {
        proof {
            reveal(loop_chunk);
            reveal(num);
        }
        if (br.peek(32) & HCA_MASK) == 0x6C6F_6F70 {
            br.skip(32);
            self.loop_start_frame = br.read(32);
            self.loop_end_frame = br.read(32);
            self.loop_start_delay = br.read(16);
            self.loop_end_padding = br.read(16);
            self.loop_flag = true;
            if !(self.loop_start_frame <= self.loop_end_frame && self.loop_end_frame
                < self.frame_count) {
                return Err(HcaError::InvalidHeader);
            }
        } else {
            self.loop_flag = false;
        }
        Ok(())
    }

    /// Reads the optional cipher chunk.
    fn decode_cipher_chunk(&mut self, br: &mut BitReader) -> (r: Result<(), HcaError>)
        requires
            countable(old(br).bytes().len()),
            old(br).pos() <= 0x1_0000,
        ensures
            stage_after(
                r,
                cipher_chunk(old(br).bytes(), Stage::start(old(self).header(), old(br).pos())),
                final(self).header(),
                final(br).pos(),
            ),
            final(self).state() == old(self).state(),
            final(self).crc == old(self).crc,
            final(br).bytes() == old(br).bytes(),
            final(br).pos() <= old(br).pos() + 0x1000,
    {
        proof {
            reveal(cipher_chunk);
            reveal(num);
        }
        if (br.peek(32) & HCA_MASK) == 0x6369_7068 {
            br.skip(32);
            self.ciph_type = br.read(16);
            if !(self.ciph_type == 0 || self.ciph_type == 1 || self.ciph_type == 56) {
                return Err(HcaError::InvalidHeader);
            }
        } else {
            self.ciph_type = 0;
        }
        Ok(())
    }

    /// Reads the optional volume chunk.
    fn decode_rva_chunk(&mut self, br: &mut BitReader)
        requires
            countable(old(br).bytes().len()),
            old(br).pos() <= 0x1_0000,
        ensures
            stage_after(
                Ok(()),
                rva_chunk(old(br).bytes(), Stage::start(old(self).header(), old(br).pos())),
                final(self).header(),
                final(br).pos(),
            ),
            final(self).state() == old(self).state(),
            final(self).crc == old(self).crc,
            final(br).bytes() == old(br).bytes(),
            final(br).pos() <= old(br).pos() + 0x1000,
    {
        proof {
            reveal(rva_chunk);
            reveal(num);
        }
        if (br.peek(32) & HCA_MASK) == 0x7276_6100 {
            br.skip(32);
            self.rva_volume = br.read(32);
        } else {
            self.rva_volume = ONE_BITS;
        }
    }

    /// Reads the optional comment.
    fn decode_comment_chunk(&mut self, br: &mut BitReader)
        requires
            countable(old(br).bytes().len()),
            old(br).pos() <= 0x1_0000,
        ensures
            stage_after(
                Ok(()),
                comment_chunk(old(br).bytes(), Stage::start(old(self).header(), old(br).pos())),
                final(self).header(),
                final(br).pos(),
            ),
            final(self).state() == old(self).state(),
            final(self).crc == old(self).crc,
            final(br).bytes() == old(br).bytes(),
            final(br).pos() <= old(br).pos() + 0x1000,
    {
        proof {
            reveal(comment_chunk);
            reveal(num);
        }
        if (br.peek(32) & HCA_MASK) == 0x636F_6D6D {
            let ghost d = br.bytes();
            let ghost start = br.pos();
            let ghost before = self.comment@;
            proof {
                lemma2_to64();
                peeked_bound(d, start + 32, 8);
            }
            br.skip(32);
            let n: usize = br.read(8) as usize;
            self.comment_len = n;
            let mut i: usize = 0;
            while i < n
                invariant
                    i <= n <= 255,
                    countable(d.len()),
                    br.bytes() == d,
                    br.pos() == start + 40 + 8 * i,
                    start <= 0x1_0000,
                    before.len() == 256,
                    self.comment@.len() == 256,
                    forall|j: int|
                        0 <= j < 256 ==> #[trigger] self.comment@[j] == if j < i {
                            num(d, (start + 40 + 8 * j) as nat, 8) as u8
                        } else {
                            before[j]
                        },
                    self.state() == old(self).state(),
                    self.crc == old(self).crc,
                    self.header() == (HeaderModel {
                        comment_len: n as nat,
                        comment: self.comment@,
                        ..old(self).header()
                    }),
                decreases n - i,
            {
                proof {
                    reveal(num);
                    lemma2_to64();
                    peeked_bound(d, br.pos(), 8);
                }
                let b: u8 = br.read(8) as u8;
                self.comment[i] = b;
                i += 1;
            }
            self.comment[n] = 0;
            proof {
                let want = comment_chunk(d, Stage::start(old(self).header(), start)).h;
                assert(self.comment@ =~= want.comment);
            }
        } else {
            self.comment_len = 0;
        }
    }

    /// Checks the frame size and the resolutions.
    fn validate_frame_and_resolution(&self) -> (r: Result<(), HcaError>)
        ensures
            if frame_accepted(self.header()) {
                r is Ok
            } else {
                r == Err::<(), HcaError>(HcaError::InvalidHeader)
            },
    {
        if self.frame_size < HCA_MIN_FRAME_SIZE || self.frame_size > HCA_MAX_FRAME_SIZE {
            return Err(HcaError::InvalidHeader);
        }
        if self.version <= HCA_VERSION_200 {
            if self.min_resolution != 1 || self.max_resolution != 15 {
                return Err(HcaError::InvalidHeader);
            }
        } else if self.min_resolution > self.max_resolution || self.max_resolution > 15 {
            return Err(HcaError::InvalidHeader);
        }
        Ok(())
    }

    /// Checks tracks and bands, and counts the high-frequency groups.
    fn validate_tracks_and_bands(&mut self) -> (r: Result<(), HcaError>)
        requires
            frame_accepted(old(self).header()),
        ensures
            ({
                let s = checked(Stage::start(old(self).header(), 0));
                stage_result(r, s) && final(self).header() == s.h
            }),
            final(self).state() == old(self).state(),
            final(self).crc == old(self).crc,
    {
        if self.track_count == 0 {
            self.track_count = 1;
        }
        if self.track_count > self.channels {
            return Err(HcaError::InvalidHeader);
        }
        if self.total_band_count > 128 || self.bands_per_hfr_group > 128 {
            return Err(HcaError::InvalidHeader);
        }
        if self.base_band_count as u64 + self.stereo_band_count as u64 > 128 {
            return Err(HcaError::InvalidHeader);
        }
        self.hfr_group_count = header_ceil2(
            wrapping_gap(
                self.total_band_count,
                self.base_band_count + self.stereo_band_count,
            ),
            self.bands_per_hfr_group,
        );
        Ok(())
    }

    /// Gives a decoder with an accepted header its tables and makes it ready.
    /// There is no hearing threshold curve where the header asks for an
    /// unknown one.
    pub fn initialize_decoder_state(
        &mut self,
        ath_curve: Option<[u8; 128]>,
        cipher_table: &[u8; 256],
    ) -> (r: Result<(), HcaError>)
        requires
            old(self).wf(),
            header_wf(old(self).header()),
        ensures
            final(self).wf(),
            final(self).header() == old(self).header(),
            match ath_curve {
                None => {
                    &&& r == Err::<(), HcaError>(HcaError::InvalidHeader)
                    &&& final(self).state() == old(self).state()
                },
                Some(curve) => {
                    &&& r is Ok
                    &&& final(self).state() == (StateModel {
                        is_valid: true,
                        ath_curve: curve@,
                        cipher_table: cipher_table@,
                        random: HCA_DEFAULT_RANDOM,
                        channel: typed_channels(old(self).header(), old(self).state().channel),
                    })
                },
            },
    {
        match ath_curve {
            None => Err(HcaError::InvalidHeader),
            Some(curve) => {
                self.ath_curve = curve;
                self.cipher_table = *cipher_table;
                self.init_channels();
                self.random = HCA_DEFAULT_RANDOM;
                self.is_valid = true;
                Ok(())
            },
        }
    }

    /// Gives each channel its type and the number of bands it codes.
    fn init_channels(&mut self)
        requires
            header_wf(old(self).header()),
        ensures
            final(self).header() == old(self).header(),
            final(self).state() == (StateModel {
                channel: typed_channels(old(self).header(), old(self).state().channel),
                ..old(self).state()
            }),
            final(self).crc == old(self).crc,
            channels_typed(final(self).header(), final(self).state().channel),
    {
        let ghost h = self.header();
        let mut types: [ChannelType; 16] = [ChannelType::Discrete; 16];
        assert(types@ =~= Seq::new(16, |i: int| ChannelType::Discrete));
        let per_track: usize = (self.channels / self.track_count) as usize;
        proof {
            vstd::arithmetic::div_mod::lemma_fundamental_div_mod(
                h.channels as int,
                h.track_count as int,
            );
            assert(h.track_count * per_track <= h.channels) by (nonlinear_arith)
                requires
                    h.channels == h.track_count * per_track + h.channels as int
                        % h.track_count as int,
                    h.channels as int % h.track_count as int >= 0,
            ;
        }
        if self.stereo_band_count > 0 && per_track > 1 {
            let total: usize = self.track_count as usize;
            let mut i: usize = 0;
            while i < total
                invariant
                    i <= total == h.track_count,
                    h == self.header(),
                    h == old(self).header(),
                    per_track == h.channels / h.track_count,
                    per_track > 1,
                    h.stereo_band_count > 0,
                    h.track_count * per_track <= h.channels <= 16,
                    types@ == types_of(per_track as nat, h.channel_config, i as nat),
                    types@.len() == 16,
                    self.state() == old(self).state(),
                    self.crc == old(self).crc,
                decreases total - i,
            {
                assert(i * per_track + per_track <= h.track_count * per_track) by (nonlinear_arith)
                    requires
                        i + 1 <= h.track_count,
                        per_track >= 0,
                ;
                let start: usize = i * per_track;
                assign_from(&mut types, start, per_track, self.channel_config);
                i += 1;
            }
        }
        assert(types@ == channel_types(h));
        let ghost before = self.state().channel;
        let mut c: usize = 0;
        let channels: usize = self.channels as usize;
        while c < channels
            invariant
                c <= channels == h.channels,
                channels <= 16,
                header_wf(h),
                h == self.header(),
                h == old(self).header(),
                types@ == channel_types(h),
                types@.len() == 16,
                before == old(self).state().channel,
                before.len() == 16,
                self.state() == (StateModel { channel: self.state().channel, ..old(self).state() }),
                self.state().channel =~= Seq::new(
                    16,
                    |j: int| if j < c { typed_channel(h, before[j], j) } else { before[j] },
                ),
                self.crc == old(self).crc,
            decreases channels - c,
        {
            let t = types[c];
            let coded: usize = if t != ChannelType::StereoSecondary {
                (self.base_band_count + self.stereo_band_count) as usize
            } else {
                self.base_band_count as usize
            };
            let ghost was = self.state().channel;
            assert(was[c as int] == self.channel@[c as int]@);
            self.channel[c].channel_type = t;
            self.channel[c].coded_count = coded;
            assert(self.state().channel =~= was.update(c as int, typed_channel(h, was[c as int], c as int)));
            c += 1;
        }
        assert(self.state().channel =~= typed_channels(h, before));
    }

    /// True when blocks can be decoded independently of each other. Only files
    /// with `min_resolution == 0` (HCA v3 noise reconstruction) carry
    /// cross-block state, the sequential `random` generator.
    pub fn is_block_parallelizable(&self) -> (r: bool)
        ensures
            r == (self.state().is_valid && self.header().min_resolution > 0),
    {
        self.is_valid && self.min_resolution > 0
    }
}

/// Whether channels have the types and coded bands that a header gives them.
pub open spec fn channels_typed(h: HeaderModel, cs: Seq<ChannelModel>) -> bool {
    &&& cs.len() == 16
    &&& forall|i: int|
        0 <= i < h.channels ==> (#[trigger] cs[i]).channel_type == channel_types(h)[i]
            && cs[i].coded_count == coded_bands(h, channel_types(h)[i])
}

/// Whether a stage is where a result, a header and a position are; a failure
/// leaves the position open.
pub open spec fn stage_after(
    r: Result<(), HcaError>,
    s: Stage,
    h: HeaderModel,
    pos: nat,
) -> bool {
    &&& stage_result(r, s)
    &&& h == s.h
    &&& s.error is None ==> pos == s.pos
}

/// What holds of the chunks of an accepted header.
pub open spec fn chunks_accepted(h: HeaderModel) -> bool {
    &&& 1 <= h.channels <= 16
    &&& h.frame_count > 0
    &&& 1 <= h.sample_rate <= HCA_MAX_SAMPLE_RATE
    &&& h.comment_len <= 255
    &&& h.encoder_delay <= 0xFFFF
    &&& h.encoder_padding <= 0xFFFF
    &&& h.loop_flag ==> h.loop_start_frame <= h.loop_end_frame < h.frame_count
}

/// What later chunks keep of the format chunk.
pub open spec fn core_kept(a: HeaderModel, b: HeaderModel) -> bool {
    &&& b.version == a.version
    &&& b.channels == a.channels
    &&& b.frame_count == a.frame_count
    &&& b.sample_rate == a.sample_rate
    &&& b.encoder_delay == a.encoder_delay
    &&& b.encoder_padding == a.encoder_padding
}

/// What the last chunks keep of the loop chunk.
pub open spec fn loop_kept(a: HeaderModel, b: HeaderModel) -> bool {
    &&& b.loop_flag == a.loop_flag
    &&& b.loop_start_frame == a.loop_start_frame
    &&& b.loop_end_frame == a.loop_end_frame
}

/// What a format chunk that was accepted says.
proof fn fmt_accepts(d: Seq<u8>, s: Stage)
    ensures
        fmt_chunk(d, s).h.version == s.h.version,
        fmt_chunk(d, s).error is None ==> {
            let h = fmt_chunk(d, s).h;
            1 <= h.channels <= 16 && h.frame_count > 0 && 1 <= h.sample_rate <= HCA_MAX_SAMPLE_RATE
                && h.encoder_delay <= 0xFFFF && h.encoder_padding <= 0xFFFF
        },
{
    reveal(fmt_chunk);
    reveal(num);
    lemma2_to64();
    peeked_bound(d, s.pos + 96, 16);
    peeked_bound(d, s.pos + 112, 16);
}

proof fn middle_chunks_keep(d: Seq<u8>, s: Stage)
    ensures
        core_kept(s.h, comp_dec_chunk(d, s).h),
        core_kept(s.h, vbr_chunk(d, s).h),
        core_kept(s.h, ath_chunk(d, s).h),
{
    reveal(comp_dec_chunk);
    reveal(comp_chunk);
    reveal(dec_chunk);
    reveal(vbr_chunk);
    reveal(ath_chunk);
}

proof fn loop_accepts(d: Seq<u8>, s: Stage)
    ensures
        core_kept(s.h, loop_chunk(d, s).h),
        loop_chunk(d, s).error is None ==> {
            let h = loop_chunk(d, s).h;
            h.loop_flag ==> h.loop_start_frame <= h.loop_end_frame < h.frame_count
        },
{
    reveal(loop_chunk);
}

proof fn last_chunks_keep(d: Seq<u8>, s: Stage)
    ensures
        core_kept(s.h, cipher_chunk(d, s).h) && loop_kept(s.h, cipher_chunk(d, s).h),
        core_kept(s.h, rva_chunk(d, s).h) && loop_kept(s.h, rva_chunk(d, s).h),
        core_kept(s.h, comment_chunk(d, s).h) && loop_kept(s.h, comment_chunk(d, s).h),
        comment_chunk(d, s).h.comment_len <= 255,
{
    reveal(cipher_chunk);
    reveal(rva_chunk);
    reveal(comment_chunk);
    reveal(num);
    lemma2_to64();
    peeked_bound(d, s.pos + 32, 8);
}

/// Whatever a header holds, the comment stays in its buffer.
proof fn comment_stays_within(d: Seq<u8>, before: HeaderModel)
    requires
        before.comment_len <= 255,
    ensures
        header_of(d, before).h.comment_len <= 255,
{
    reveal(base_header);
    let s0 = base_header(d, Stage::start(before, 0));
    comment_kept_by_first(d, s0);
    let s2 = comp_dec_chunk(d, fmt_chunk(d, s0));
    comment_kept_by_middle(d, s2);
    let s3 = vbr_chunk(d, s2);
    comment_kept_by_middle(d, s3);
    let s4 = ath_chunk(d, s3);
    comment_kept_by_middle(d, s4);
    let s5 = loop_chunk(d, s4);
    comment_kept_by_middle(d, s5);
    let s6 = cipher_chunk(d, s5);
    comment_kept_by_middle(d, s6);
    last_chunks_keep(d, rva_chunk(d, s6));
}

proof fn comment_kept_by_first(d: Seq<u8>, s: Stage)
    ensures
        fmt_chunk(d, s).h.comment_len == s.h.comment_len,
        comp_dec_chunk(d, fmt_chunk(d, s)).h.comment_len == s.h.comment_len,
{
    reveal(fmt_chunk);
    reveal(comp_dec_chunk);
    reveal(comp_chunk);
    reveal(dec_chunk);
}

proof fn comment_kept_by_middle(d: Seq<u8>, s: Stage)
    ensures
        vbr_chunk(d, s).h.comment_len == s.h.comment_len,
        ath_chunk(d, s).h.comment_len == s.h.comment_len,
        loop_chunk(d, s).h.comment_len == s.h.comment_len,
        cipher_chunk(d, s).h.comment_len == s.h.comment_len,
        rva_chunk(d, s).h.comment_len == s.h.comment_len,
{
    reveal(vbr_chunk);
    reveal(ath_chunk);
    reveal(loop_chunk);
    reveal(cipher_chunk);
    reveal(rva_chunk);
}

/// Chunks that were all read describe an acceptable stream.
proof fn chunks_accept(d: Seq<u8>, s: Stage)
    ensures
        all_chunks(d, s).error is None ==> chunks_accepted(all_chunks(d, s).h) && all_chunks(
            d,
            s,
        ).h.version == s.h.version,
{
    let s1 = fmt_chunk(d, s);
    let s2 = comp_dec_chunk(d, s1);
    let s3 = vbr_chunk(d, s2);
    let s4 = ath_chunk(d, s3);
    let s5 = loop_chunk(d, s4);
    let s6 = cipher_chunk(d, s5);
    let s7 = rva_chunk(d, s6);
    fmt_accepts(d, s);
    middle_chunks_keep(d, s1);
    middle_chunks_keep(d, s2);
    middle_chunks_keep(d, s3);
    loop_accepts(d, s4);
    last_chunks_keep(d, s5);
    last_chunks_keep(d, s6);
    last_chunks_keep(d, s7);
}

/// The header of a decoder that has read nothing.
pub open spec fn blank_header() -> HeaderModel {
    HeaderModel {
        version: 0,
        header_size: 0,
        channels: 0,
        sample_rate: 0,
        frame_count: 0,
        encoder_delay: 0,
        encoder_padding: 0,
        frame_size: 0,
        min_resolution: 0,
        max_resolution: 0,
        track_count: 0,
        channel_config: 0,
        stereo_type: 0,
        total_band_count: 0,
        base_band_count: 0,
        stereo_band_count: 0,
        bands_per_hfr_group: 0,
        ms_stereo: 0,
        reserved: 0,
        vbr_max_frame_size: 0,
        vbr_noise_level: 0,
        ath_type: 0,
        loop_start_frame: 0,
        loop_end_frame: 0,
        loop_start_delay: 0,
        loop_end_padding: 0,
        loop_flag: false,
        ciph_type: 0,
        keycode: 0,
        rva_volume: ONE_BITS,
        comment_len: 0,
        comment: zeros(256),
        hfr_group_count: 0,
    }
}

/// The state of a decoder that has read nothing.
pub open spec fn blank_state() -> StateModel {
    StateModel {
        is_valid: false,
        ath_curve: zeros(128),
        cipher_table: zeros(256),
        random: HCA_DEFAULT_RANDOM,
        channel: Seq::new(16, |i: int| silent_channel()),
    }
}

/// Whether information shows what a header says.
pub open spec fn info_shows(i: HcaInfo, h: HeaderModel) -> bool {
    &&& i.version == h.version
    &&& i.header_size == h.header_size
    &&& i.sampling_rate == h.sample_rate
    &&& i.channel_count == h.channels
    &&& i.block_size == h.frame_size
    &&& i.block_count == h.frame_count
    &&& i.encoder_delay == h.encoder_delay
    &&& i.encoder_padding == h.encoder_padding
    &&& i.loop_enabled == h.loop_flag
    &&& i.loop_start_block == h.loop_start_frame
    &&& i.loop_end_block == h.loop_end_frame
    &&& i.loop_start_delay == h.loop_start_delay
    &&& i.loop_end_padding == h.loop_end_padding
    &&& i.samples_per_block == 1024
    &&& i.comment@ == if h.comment_len > 0 {
        utf8_lossy(h.comment.subrange(0, h.comment_len as int))
    } else {
        Seq::empty()
    }
    &&& i.encryption_enabled == (h.ciph_type == 56)
}

impl Default for ClHca {
    fn default() -> (r: Self)
        ensures
            r.wf(),
            r.header() == blank_header(),
            r.state() == blank_state(),
    {
        Self::new()
    }
}

} // verus!
