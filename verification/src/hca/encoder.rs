//! HCA encoder: the settings of a stream, its header, and the choice of
//! resolutions within the bit budget of a frame.

use vstd::prelude::*;
use crate::acb::utf::wrap32;
use crate::bytes::zeros;
use crate::hca::decoder::{ceil_div, rows, with_track, ChannelType};
use crate::hca::tables::{DEFAULT_CHANNEL_MAPPING, VALID_CHANNEL_MAPPINGS};

verus! {

/// The bytes of every header.
pub const HEADER_SIZE: usize = 0x60;

/// Samples that come out before the first one that went in.
pub const ENCODER_DELAY: u32 = 128;

pub const DEFAULT_TRACK_COUNT: u32 = 1;

pub const MIN_RESOLUTION: u8 = 1;

pub const MAX_RESOLUTION: u8 = 15;

/// Why a stream could not be encoded.
#[derive(Debug, Clone, Copy, PartialEq, Eq, Structural)]
pub enum HcaEncoderError {
    InvalidSampleRate(u32),
    InvalidChannelCount(u32),
    FrameTooLarge,
    NoSamples,
}

/// HCA encoder configuration.
#[derive(Debug, Clone, Copy, PartialEq, Eq, Structural)]
pub struct HcaEncoderConfig {
    pub sample_rate: u32,
    pub channels: u32,
    pub bitrate: u32,
    pub encryption_key: Option<u64>,
    pub loop_start: Option<u32>,
    pub loop_end: Option<u32>,
}

impl Default for HcaEncoderConfig {
    fn default() -> (r: Self)
        ensures
            r == (HcaEncoderConfig {
                sample_rate: 44100,
                channels: 2,
                bitrate: 256000,
                encryption_key: None,
                loop_start: None,
                loop_end: None,
            }),
    {
        HcaEncoderConfig {
            sample_rate: 44100,
            channels: 2,
            bitrate: 256000,
            encryption_key: None,
            loop_start: None,
            loop_end: None,
        }
    }
}

impl HcaEncoderConfig {
    pub fn new(sample_rate: u32, channels: u32) -> (r: Self)
        ensures
            r == (HcaEncoderConfig {
                sample_rate,
                channels,
                bitrate: 256000,
                encryption_key: None,
                loop_start: None,
                loop_end: None,
            }),
    {
        HcaEncoderConfig {
            sample_rate,
            channels,
            bitrate: 256000,
            encryption_key: None,
            loop_start: None,
            loop_end: None,
        }
    }

    pub fn with_bitrate(self, bitrate: u32) -> (r: Self)
        ensures
            r == (HcaEncoderConfig { bitrate, ..self }),
    {
        HcaEncoderConfig { bitrate, ..self }
    }

    pub fn with_encryption(self, key: u64) -> (r: Self)
        ensures
            r == (HcaEncoderConfig { encryption_key: Some(key), ..self }),
    {
        HcaEncoderConfig { encryption_key: Some(key), ..self }
    }
}

/// What goes into the bit stream of a channel's frame.
#[derive(Debug, Clone, Copy)]
pub struct ChannelEncodeState {
    pub channel_type: ChannelType,
    pub coded_count: usize,
    pub quantized_spectra: [[i32; 128]; 8],
    pub scale_factors: [u8; 128],
    pub resolutions: [u8; 128],
    pub intensity: [u8; 8],
    pub hfr_scales: [u8; 8],
    pub scale_factor_delta_bits: u8,
    pub header_length_bits: usize,
}

/// What a channel to be encoded holds.
pub struct EncodeModel {
    pub channel_type: ChannelType,
    pub coded_count: nat,
    pub quantized: Seq<Seq<i32>>,
    pub scale_factors: Seq<u8>,
    pub resolutions: Seq<u8>,
    pub intensity: Seq<u8>,
    pub hfr_scales: Seq<u8>,
    pub delta_bits: u8,
    pub header_length: nat,
}

impl View for ChannelEncodeState {
    type V = EncodeModel;

    open spec fn view(&self) -> EncodeModel {
        EncodeModel {
            channel_type: self.channel_type,
            coded_count: self.coded_count as nat,
            quantized: rows(self.quantized_spectra),
            scale_factors: self.scale_factors@,
            resolutions: self.resolutions@,
            intensity: self.intensity@,
            hfr_scales: self.hfr_scales@,
            delta_bits: self.scale_factor_delta_bits,
            header_length: self.header_length_bits as nat,
        }
    }
}

/// A channel of which nothing is known yet.
pub open spec fn silent_encode() -> EncodeModel {
    EncodeModel {
        channel_type: ChannelType::Discrete,
        coded_count: 0,
        quantized: Seq::new(8, |i: int| Seq::new(128, |j: int| 0i32)),
        scale_factors: zeros(128),
        resolutions: zeros(128),
        intensity: zeros(8),
        hfr_scales: zeros(8),
        delta_bits: 0,
        header_length: 0,
    }
}

impl Default for ChannelEncodeState {
    fn default() -> (r: Self)
        ensures
            r@ == silent_encode(),
    {
        let r = ChannelEncodeState {
            channel_type: ChannelType::Discrete,
            coded_count: 0,
            quantized_spectra: [[0; 128]; 8],
            scale_factors: [0; 128],
            resolutions: [0; 128],
            intensity: [0; 8],
            hfr_scales: [0; 8],
            scale_factor_delta_bits: 0,
            header_length_bits: 0,
        };
        assert(r.scale_factors@ =~= zeros(128));
        assert(r.resolutions@ =~= zeros(128));
        assert(r.intensity@ =~= zeros(8));
        assert(r.hfr_scales@ =~= zeros(8));
        assert forall|i: int| 0 <= i < 8 implies rows(r.quantized_spectra)[i] == Seq::new(
            128,
            |j: int| 0i32,
        ) by {
            assert(rows(r.quantized_spectra)[i] =~= Seq::new(128, |j: int| 0i32));
        }
        assert(rows(r.quantized_spectra) =~= silent_encode().quantized);
        r
    }
}

/// A number within limits.
pub open spec fn clamped(v: int, low: int, high: int) -> int {
    if v < low {
        low
    } else if v > high {
        high
    } else {
        v
    }
}

/// The bytes of a frame of 1024 samples at a bit rate.
pub open spec fn frame_size_of(bitrate: u32, sample_rate: u32) -> u32 {
    clamped(wrap32((bitrate * 1024) / (sample_rate * 8)) as int, 0x8, 0xFFFF) as u32
}

/// A quotient rounded to the nearest integer, halves up.
pub open spec fn rounded(a: int, b: int) -> int {
    (2 * a + b) / (2 * b)
}

/// How the bands of a stream are split.
pub struct BandSplit {
    pub total: u32,
    pub base: u32,
    pub stereo: u32,
    pub per_group: u32,
}

/// The bit rate of the samples themselves.
pub open spec fn pcm_rate(c: HcaEncoderConfig) -> int {
    c.sample_rate * c.channels * 16
}

/// Whether the stream is coded at a high rate: a single channel, or at most
/// sevenfold compression.
pub open spec fn high_rate(c: HcaEncoderConfig) -> bool {
    c.channels <= 1 || pcm_rate(c) / at_least_one_rate(c) <= 6
}

/// The bit rate, at least one.
pub open spec fn at_least_one_rate(c: HcaEncoderConfig) -> int {
    if c.bitrate == 0 { 1 } else { c.bitrate as int }
}

/// The highest frequency that is coded: lower for low bit rates.
pub open spec fn cutoff(c: HcaEncoderConfig) -> int {
    let half = c.sample_rate as int / 2;
    let rate = at_least_one_rate(c);
    let ratio: int = if high_rate(c) { 12 } else { 16 };
    if rate < pcm_rate(c) / ratio {
        let limit = ratio * rate / (32 * c.channels);
        if limit < half { limit } else { half }
    } else {
        half
    }
}

/// The split of the bands: those below the cutoff frequency, of which the bit
/// rate tells where the high-frequency groups start; at low rates half of the
/// bands below are stereo bands.
pub open spec fn band_split(c: HcaEncoderConfig) -> BandSplit {
    let ratio: int = if high_rate(c) { 6 } else { 8 };
    let total = clamped(rounded(cutoff(c) * 256, c.sample_rate as int), 1, 128);
    let start = rounded(ratio * at_least_one_rate(c) * 128, pcm_rate(c));
    let start = if start < total { start } else { total };
    let base = if high_rate(c) { start } else { (start + 1) / 2 };
    BandSplit {
        total: total as u32,
        base: base as u32,
        stereo: (start - base) as u32,
        per_group: ((total - start + 7) / 8) as u32,
    }
}

/// The settings and the channels of an encoder.
pub struct EncoderModel {
    pub config: HcaEncoderConfig,
    pub frame_size: u32,
    pub bands: BandSplit,
    pub hfr_group_count: u32,
    pub channel_config: u32,
    pub padding: u32,
    pub channel: Seq<EncodeModel>,
    pub encrypt_table: Seq<u8>,
}

/// HCA encoder.
#[derive(Debug, Clone)]
pub struct HcaEncoder {
    pub config: HcaEncoderConfig,
    pub frame_size: u32,
    pub total_band_count: u32,
    pub base_band_count: u32,
    pub stereo_band_count: u32,
    pub hfr_band_count: u32,
    pub bands_per_hfr_group: u32,
    pub hfr_group_count: u32,
    pub track_count: u32,
    pub channel_config: u32,
    pub encoder_delay: u32,
    pub encoder_padding: u32,
    pub channel: [ChannelEncodeState; 16],
    pub encrypt_table: [u8; 256],
}

/// The models of all channels.
pub open spec fn encode_models(a: [ChannelEncodeState; 16]) -> Seq<EncodeModel> {
    a@.map_values(|c: ChannelEncodeState| c@)
}

impl View for HcaEncoder {
    type V = EncoderModel;

    open spec fn view(&self) -> EncoderModel {
        EncoderModel {
            config: self.config,
            frame_size: self.frame_size,
            bands: BandSplit {
                total: self.total_band_count,
                base: self.base_band_count,
                stereo: self.stereo_band_count,
                per_group: self.bands_per_hfr_group,
            },
            hfr_group_count: self.hfr_group_count,
            channel_config: self.channel_config,
            padding: self.encoder_padding,
            channel: encode_models(self.channel),
            encrypt_table: self.encrypt_table@,
        }
    }
}

/// Why a configuration is refused, if so.
pub open spec fn config_error(c: HcaEncoderConfig) -> Option<HcaEncoderError> {
    if c.sample_rate == 0 || c.sample_rate > 0x7F_FFFF {
        Some(HcaEncoderError::InvalidSampleRate(c.sample_rate))
    } else if c.channels == 0 || c.channels > 8 {
        Some(HcaEncoderError::InvalidChannelCount(c.channels))
    } else {
        None
    }
}

/// The channel types of a stream of one track.
pub open spec fn encode_types(channels: nat, stereo: u32, config: u32) -> Seq<ChannelType> {
    let plain = Seq::new(channels, |i: int| ChannelType::Discrete);
    if stereo > 0 && channels > 1 { with_track(plain, 0, channels as int, config) } else { plain }
}

/// A channel with its type and coded bands.
pub open spec fn typed_encode(
    c: EncodeModel,
    t: ChannelType,
    bands: BandSplit,
) -> EncodeModel {
    EncodeModel {
        channel_type: t,
        coded_count: if t == ChannelType::StereoSecondary {
            bands.base as nat
        } else {
            (bands.base + bands.stereo) as nat
        },
        ..c
    }
}

/// The inverse of a table: the last place of each value, zero for a value that
/// does not occur.
pub open spec fn inverse_table(t: Seq<u8>, n: nat) -> Seq<u8>
    decreases n,
{
    if n == 0 {
        zeros(256)
    } else {
        inverse_table(t, (n - 1) as nat).update(t[n - 1] as int, (n - 1) as u8)
    }
}

/// The table that leaves every byte as it is.
pub open spec fn identity_table() -> Seq<u8> {
    Seq::new(256, |i: int| i as u8)
}

/// An encoder for a configuration that is accepted, without encryption.
pub open spec fn new_encoder(c: HcaEncoderConfig) -> EncoderModel {
    let bands = band_split(c);
    let config = DEFAULT_CHANNEL_MAPPING[c.channels as int] as u32;
    let types = encode_types(c.channels as nat, bands.stereo, config);
    EncoderModel {
        config: c,
        frame_size: frame_size_of(c.bitrate, c.sample_rate),
        bands,
        hfr_group_count: ceil_div(
            bands.total - bands.base - bands.stereo,
            bands.per_group as int,
        ) as u32,
        channel_config: config,
        padding: 0,
        channel: Seq::new(
            16,
            |i: int|
                if i < c.channels {
                    typed_encode(silent_encode(), types[i], bands)
                } else {
                    silent_encode()
                },
        ),
        encrypt_table: identity_table(),
    }
}

/// The inverse of a cipher table.
fn invert(cipher_table: &[u8; 256]) -> (r: [u8; 256])
    ensures
        r@ == inverse_table(cipher_table@, 256),
{
    let mut out: [u8; 256] = [0; 256];
    assert(out@ =~= zeros(256));
    let mut plain: usize = 0;
    while plain < 256
        invariant
            plain <= 256,
            out@ =~= inverse_table(cipher_table@, plain as nat),
        decreases 256 - plain,
    {
        let e: u8 = cipher_table[plain];
        out[e as usize] = plain as u8;
        plain += 1;
    }
    out
}

/// A table in which no value occurs twice is undone by its inverse.
pub proof fn inverse_undoes(t: Seq<u8>, n: nat)
    requires
        t.len() == 256,
        n <= 256,
        forall|i: int, j: int| 0 <= i < j < 256 ==> t[i] != t[j],
    ensures
        inverse_table(t, n).len() == 256,
        forall|p: int| 0 <= p < n ==> inverse_table(t, n)[#[trigger] t[p] as int] == p,
    decreases n,
{
    if n > 0 {
        inverse_undoes(t, (n - 1) as nat);
    }
}

impl HcaEncoder {
    /// Whether the encoder's numbers are those of its configuration.
    pub open spec fn wf(&self) -> bool {
        encoder_wf(self@) && self.track_count == 1 && self.encoder_delay == ENCODER_DELAY
            && self.hfr_band_count == self.total_band_count - self.base_band_count
            - self.stereo_band_count
    }

    /// An encoder for a configuration, without encryption.
    pub fn new(config: HcaEncoderConfig) -> (r: Result<Self, HcaEncoderError>)
        ensures
            match config_error(config) {
                Some(e) => r == Err::<Self, HcaEncoderError>(e),
                None => r is Ok && r->Ok_0@ == new_encoder(config) && r->Ok_0.wf(),
            },
    {
        if config.sample_rate == 0 || config.sample_rate > 0x7F_FFFF {
            return Err(HcaEncoderError::InvalidSampleRate(config.sample_rate));
        }
        if config.channels == 0 || config.channels > 16 {
            return Err(HcaEncoderError::InvalidChannelCount(config.channels));
        }
        let frame_size: u32 = Self::calculate_frame_size(config.bitrate, config.sample_rate);
        let (total, base, stereo, per_group) = Self::calculate_band_counts(&config);
        proof {
            split_bounds(config);
        }
        let hfr_band_count: u32 = total - base - stereo;
        let hfr_group_count: u32 = crate::hca::decoder::header_ceil2(hfr_band_count, per_group);
        let channel_config: u32 = Self::default_channel_config(
            config.channels,
            DEFAULT_TRACK_COUNT,
        )?;
        let silent = ChannelEncodeState::default();
        let mut identity: [u8; 256] = [0; 256];
        let mut i: usize = 0;
        while i < 256
            invariant
                i <= 256,
                identity@.len() == 256,
                forall|j: int| 0 <= j < i ==> #[trigger] identity@[j] == j,
            decreases 256 - i,
        {
            identity[i] = i as u8;
            i += 1;
        }
        assert(identity@ =~= identity_table());
        let mut encoder = HcaEncoder {
            config,
            frame_size,
            total_band_count: total,
            base_band_count: base,
            stereo_band_count: stereo,
            hfr_band_count,
            bands_per_hfr_group: per_group,
            hfr_group_count,
            track_count: DEFAULT_TRACK_COUNT,
            channel_config,
            encoder_delay: ENCODER_DELAY,
            encoder_padding: 0,
            channel: [silent; 16],
            encrypt_table: identity,
        };
        assert(encoder@.channel =~= Seq::new(16, |i: int| silent_encode()));
        encoder.set_channel_types();
        assert(encoder@.channel =~= new_encoder(config).channel);
        Ok(encoder)
    }

    /// Takes the cipher table of the encryption key.
    pub fn set_cipher_table(&mut self, cipher_table: &[u8; 256])
        requires
            old(self).wf(),
        ensures
            final(self).wf(),
            final(self)@ == (EncoderModel {
                encrypt_table: inverse_table(cipher_table@, 256),
                ..old(self)@
            }),
    {
        self.encrypt_table = invert(cipher_table);
    }

    /// The bytes of a frame of 1024 samples at a bit rate.
    fn calculate_frame_size(bitrate: u32, sample_rate: u32) -> (r: u32)
        requires
            sample_rate > 0,
        ensures
            r == frame_size_of(bitrate, sample_rate),
    {
        let size: u64 = (bitrate as u64 * 1024) / (sample_rate as u64 * 8);
        let low: u32 = (size % 0x1_0000_0000) as u32;
        if low < 0x8 {
            0x8
        } else if low > 0xFFFF {
            0xFFFF
        } else {
            low
        }
    }

    /// The split of the bands: total, base, stereo, and bands per
    /// high-frequency group.
    fn calculate_band_counts(config: &HcaEncoderConfig) -> (r: (u32, u32, u32, u32))
        requires
            0 < config.sample_rate <= 0x7F_FFFF,
            0 < config.channels <= 16,
        ensures
            (BandSplit { total: r.0, base: r.1, stereo: r.2, per_group: r.3 }) == band_split(
                *config,
            ),
    {
        let half: u64 = config.sample_rate as u64 / 2;
        let rate: u64 = if config.bitrate == 0 { 1 } else { config.bitrate as u64 };
        assert(config.sample_rate * config.channels <= 0x7F_FFFF * 16) by (nonlinear_arith)
            requires
                config.sample_rate <= 0x7F_FFFF,
                config.channels <= 16,
        ;
        assert(config.sample_rate * config.channels >= 1) by (nonlinear_arith)
            requires
                config.sample_rate >= 1,
                config.channels >= 1,
        ;
        let pcm: u64 = config.sample_rate as u64 * config.channels as u64 * 16;
        let high: bool = config.channels <= 1 || pcm / rate <= 6;
        let cutoff_ratio: u64 = if high { 12 } else { 16 };
        let hfr_ratio: u64 = if high { 6 } else { 8 };
        let mut cutoff: u64 = half;
        if rate < pcm / cutoff_ratio {
            let limit: u64 = cutoff_ratio * rate / (32 * config.channels as u64);
            if limit < cutoff {
                cutoff = limit;
            }
        }
        let sample_rate: u64 = config.sample_rate as u64;
        let rounded_total: u64 = (2 * (cutoff * 256) + sample_rate) / (2 * sample_rate);
        let total: u64 = if rounded_total < 1 {
            1
        } else if rounded_total > 128 {
            128
        } else {
            rounded_total
        };
        let wanted: u64 = (2 * (hfr_ratio * rate * 128) + pcm) / (2 * pcm);
        let start: u64 = if wanted < total { wanted } else { total };
        let base: u64 = if high { start } else { (start + 1) / 2 };
        (total as u32, base as u32, (start - base) as u32, ((total - start + 7) / 8) as u32)
    }

    /// The channel configuration of a number of channels per track.
    fn default_channel_config(channels: u32, track_count: u32) -> (r: Result<u32, HcaEncoderError>)
        requires
            track_count >= 1,
            channels / track_count >= 1,
        ensures
            ({
                let n = channels / track_count;
                if n <= 8 {
                    r == Ok::<u32, HcaEncoderError>(DEFAULT_CHANNEL_MAPPING[n as int] as u32)
                } else {
                    r == Err::<u32, HcaEncoderError>(HcaEncoderError::InvalidChannelCount(channels))
                }
            }),
    {
        let n: usize = (channels / track_count) as usize;
        if n > 8 {
            return Err(HcaEncoderError::InvalidChannelCount(channels));
        }
        let config: u8 = DEFAULT_CHANNEL_MAPPING[n];
        assert(config < 8 && VALID_CHANNEL_MAPPINGS[n - 1][config as int] != 0) by {
            mapping_valid(n as int);
        }
        if VALID_CHANNEL_MAPPINGS[n - 1][config as usize] == 0 {
            return Err(HcaEncoderError::InvalidChannelCount(channels));
        }
        Ok(config as u32)
    }

    /// Gives each channel its type and the number of bands it codes.
    fn set_channel_types(&mut self)
        requires
            1 <= old(self).config.channels <= 8,
            old(self).track_count == 1,
            old(self).base_band_count + old(self).stereo_band_count <= 128,
        ensures
            ({
                let e = old(self)@;
                let n = e.config.channels as nat;
                let types = encode_types(n, e.bands.stereo, e.channel_config);
                final(self)@ == (EncoderModel {
                    channel: Seq::new(
                        16,
                        |i: int|
                            if i < n {
                                typed_encode(e.channel[i], types[i], e.bands)
                            } else {
                                e.channel[i]
                            },
                    ),
                    ..e
                })
            }),
            final(self).track_count == old(self).track_count,
            final(self).encoder_delay == old(self).encoder_delay,
            final(self).hfr_band_count == old(self).hfr_band_count,
    {
        let ghost e = self@;
        let n: usize = self.config.channels as usize;
        let mut types: Vec<ChannelType> = Vec::new();
        let mut k: usize = 0;
        while k < n
            invariant
                k <= n,
                types@ =~= Seq::new(k as nat, |i: int| ChannelType::Discrete),
            decreases n - k,
        {
            types.push(ChannelType::Discrete);
            k += 1;
        }
        if self.stereo_band_count > 0 && n > 1 {
            crate::hca::decoder::assign_stereo_channel_types(
                types.as_mut_slice(),
                n,
                self.channel_config,
            );
        }
        assert(types@ == encode_types(n as nat, e.bands.stereo, e.channel_config));
        let mut i: usize = 0;
        while i < n
            invariant
                i <= n <= 8,
                n == e.config.channels,
                types@ == encode_types(n as nat, e.bands.stereo, e.channel_config),
                types@.len() == n,
                e == old(self)@,
                e.bands.base + e.bands.stereo <= 128,
                self@ == (EncoderModel { channel: self@.channel, ..e }),
                self.track_count == old(self).track_count,
                self.encoder_delay == old(self).encoder_delay,
                self.hfr_band_count == old(self).hfr_band_count,
                self@.channel =~= Seq::new(
                    16,
                    |j: int|
                        if j < i {
                            typed_encode(e.channel[j], types@[j], e.bands)
                        } else {
                            e.channel[j]
                        },
                ),
            decreases n - i,
        {
            let t = types[i];
            let coded: usize = if t == ChannelType::StereoSecondary {
                self.base_band_count as usize
            } else {
                (self.base_band_count + self.stereo_band_count) as usize
            };
            let ghost was = self@.channel;
            assert(was[i as int] == self.channel@[i as int]@);
            self.channel[i].channel_type = t;
            self.channel[i].coded_count = coded;
            assert(self@.channel =~= was.update(i as int, typed_encode(was[i as int], t, e.bands)));
            i += 1;
        }
    }
}

/// Whether the numbers of an encoder fit together.
pub open spec fn encoder_wf(e: EncoderModel) -> bool {
    &&& config_error(e.config) is None
    &&& 8 <= e.frame_size <= 0xFFFF
    &&& 1 <= e.bands.total <= 128
    &&& e.bands.base + e.bands.stereo <= e.bands.total
    &&& e.bands.per_group <= 16
    &&& e.hfr_group_count <= 8
    &&& e.hfr_group_count == ceil_div(
        e.bands.total - e.bands.base - e.bands.stereo,
        e.bands.per_group as int,
    )
    &&& e.channel_config == DEFAULT_CHANNEL_MAPPING[e.config.channels as int]
    &&& e.channel.len() == 16
    &&& forall|i: int|
        0 <= i < e.config.channels ==> same_encode_kind(
            #[trigger] e.channel[i],
            encode_types(e.config.channels as nat, e.bands.stereo, e.channel_config)[i],
            e.bands,
        )
}

/// Whether a channel has the type and coded bands it should.
pub open spec fn same_encode_kind(c: EncodeModel, t: ChannelType, bands: BandSplit) -> bool {
    c.channel_type == t && c.coded_count == typed_encode(c, t, bands).coded_count
}

/// Every number of channels up to eight has a valid configuration.
proof fn mapping_valid(n: int)
    requires
        1 <= n <= 8,
    ensures
        DEFAULT_CHANNEL_MAPPING[n] < 8,
        VALID_CHANNEL_MAPPINGS[n - 1][DEFAULT_CHANNEL_MAPPING[n] as int] != 0,
{
    assert(n == 1 || n == 2 || n == 3 || n == 4 || n == 5 || n == 6 || n == 7 || n == 8);
}

/// The parts of a split lie within the total, in at most eight groups.
proof fn split_bounds(c: HcaEncoderConfig)
    requires
        0 < c.sample_rate <= 0x7F_FFFF,
        0 < c.channels <= 16,
    ensures
        ({
            let b = band_split(c);
            &&& 1 <= b.total <= 128
            &&& b.base + b.stereo <= b.total
            &&& b.per_group <= 16
            &&& 0 <= ceil_div(b.total - b.base - b.stereo, b.per_group as int) <= 8
        }),
{
    let b = band_split(c);
    let pcm = pcm_rate(c);
    assert(pcm > 0) by (nonlinear_arith)
        requires
            pcm == c.sample_rate * c.channels * 16,
            c.sample_rate > 0,
            c.channels > 0,
    ;
    let ratio: int = if high_rate(c) { 6 } else { 8 };
    let num = 2 * (ratio * at_least_one_rate(c) * 128) + pcm;
    assert(num >= 0) by (nonlinear_arith)
        requires
            num == 2 * (ratio * at_least_one_rate(c) * 128) + pcm,
            ratio >= 0,
            at_least_one_rate(c) >= 0,
            pcm >= 0,
    ;
    assert(num / (2 * pcm) >= 0) by (nonlinear_arith)
        requires
            num >= 0,
            pcm > 0,
    ;
    let left = b.total - b.base - b.stereo;
    let g = b.per_group as int;
    if g >= 1 {
        assert(g == (left + 7) / 8);
        assert((left + g - 1) / g <= 8) by (nonlinear_arith)
            requires
                g == (left + 7) / 8,
                g >= 1,
                left >= 0,
        ;
        assert((left + g - 1) / g >= 0) by (nonlinear_arith)
            requires
                g >= 1,
                left >= 0,
        ;
    }
}

} // verus!
