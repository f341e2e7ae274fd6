//! HCA headers, blocks, encoder settings and key trials.

use cridecoder::hca::bitreader::{BitReader, BitWriter};
use cridecoder::hca::decoder::{
    assign_stereo_channel_types, header_ceil2, ChannelType, ClHca, StChannel, HCA_DEFAULT_RANDOM,
    HCA_SUBFRAMES, ONE_BITS,
};
use cridecoder::hca::encoder::{HcaEncoder, HcaEncoderConfig};
use cridecoder::hca::hca_file::{
    finalize_score, scale_frame_score, HcaDecoderError, KeyTest, HCA_KEY_SCORE_SCALE,
};
use cridecoder::hca::reconstruct::interleave_samples;
use cridecoder::hca::samples::{pcm_f32_to_i16, sample_quality};
use cridecoder::hca::tables::{DEQ_USED_BASE, DEQ_USED_THRESH, MAX_BIT_TABLE, READ_BIT_TABLE};
use cridecoder::hca::unpack::{decode_intensity_delta, resolution_for_scale_factor};

#[test]
fn test_header_ceil2() {
    assert_eq!(header_ceil2(10, 3), 4);
    assert_eq!(header_ceil2(9, 3), 3);
    assert_eq!(header_ceil2(0, 3), 0);
    assert_eq!(header_ceil2(10, 0), 0);
    assert_eq!(header_ceil2(1, 1), 1);
    assert_eq!(header_ceil2(7, 2), 4);
}

#[test]
fn test_is_hca_file_valid() {
    // HCA\0 signature (0x48434100) + version (0x0102) + header_size (0x0060)
    let data = [0x48, 0x43, 0x41, 0x00, 0x01, 0x02, 0x00, 0x60];
    let result = ClHca::is_hca_file(&data);
    assert_eq!(result, Some(0x0060));
}

#[test]
fn test_is_hca_file_invalid() {
    let data = [0x00, 0x00, 0x00, 0x00, 0x00, 0x00, 0x00, 0x00];
    assert_eq!(ClHca::is_hca_file(&data), None);

    let short = [0x48, 0x43];
    assert_eq!(ClHca::is_hca_file(&short), None);
}

#[test]
fn test_clhca_new_defaults() {
    let hca = ClHca::new();
    assert!(!hca.is_valid);
    assert_eq!(hca.version, 0);
    assert_eq!(hca.channels, 0);
    assert_eq!(hca.random, HCA_DEFAULT_RANDOM);
    assert_eq!(f32::from_bits(hca.rva_volume), 1.0);
    assert_eq!(hca.rva_volume, ONE_BITS);
}

#[test]
fn test_refactored_decoder_helpers() {
    let mut channel_types = [ChannelType::Discrete; 8];
    assign_stereo_channel_types(&mut channel_types[..4], 4, 0);
    assert_eq!(channel_types[0], ChannelType::StereoPrimary);
    assert_eq!(channel_types[1], ChannelType::StereoSecondary);
    assert_eq!(channel_types[2], ChannelType::StereoPrimary);
    assert_eq!(channel_types[3], ChannelType::StereoSecondary);
    assign_stereo_channel_types(&mut channel_types[..5], 5, 2);
    assert_eq!(channel_types[3], ChannelType::StereoPrimary);
    assign_stereo_channel_types(&mut channel_types[..6], 6, 0);
    assert_eq!(channel_types[4], ChannelType::StereoPrimary);
    assign_stereo_channel_types(&mut channel_types, 8, 0);
    assert_eq!(channel_types[6], ChannelType::StereoPrimary);

    assert_eq!(sample_quality(1.5f32.to_bits()), (1, 0));
    assert_eq!(sample_quality(0.0f32.to_bits()), (0, 1));
    assert_eq!(sample_quality(0.5f32.to_bits()), (0, 0));
    assert_eq!(resolution_for_scale_factor(0, 0, 0, 0, 0, 15), 0);
    assert_eq!(resolution_for_scale_factor(63, 0, 0, 0, 1, 15), 15);
    assert_eq!(resolution_for_scale_factor(1, 100, 0, 0, 0, 15), 0);

    let pcm = |v: f32| pcm_f32_to_i16(v.to_bits());
    let mono = interleave_samples(&vec![vec![pcm(0.5)]], 1);
    assert_eq!(mono[0], 16384);
    let interleaved = interleave_samples(&vec![vec![pcm(0.25)], vec![pcm(0.5)], vec![pcm(0.75)]], 1);
    assert_eq!(interleaved[0], 8192);
    assert_eq!(interleaved[1], 16384);
    assert_eq!(interleaved[2], 24576);
}

#[test]
fn test_scale_factor_and_intensity_unpack_helpers() {
    let mut channel = StChannel::default();
    channel.scale_factors.fill(9);
    ClHca::unpack_scale_factor_values(&mut channel, &mut BitReader::new(&[]), 2, 0).unwrap();
    assert!(channel.scale_factors.iter().all(|&value| value == 0));

    let fixed_data = [0b1010_1001, 0b0101_0000];
    ClHca::unpack_scale_factor_values(&mut channel, &mut BitReader::new(&fixed_data), 2, 6)
        .unwrap();
    assert_eq!(&channel.scale_factors[..2], &[42, 21]);

    let mut escaped_reader = BitReader::new(&[0b1010_0000]);
    assert_eq!(
        decode_intensity_delta(&mut escaped_reader, 0, 3, 3).unwrap(),
        10
    );
    assert!(decode_intensity_delta(&mut BitReader::new(&[]), 15, 2, 3).is_err());

    let mut channel = StChannel::default();
    ClHca::unpack_delta_intensity(&mut channel, &mut BitReader::new(&[0xf0])).unwrap();
    assert!(channel.intensity.iter().all(|&value| value == 7));

    ClHca::unpack_delta_intensity(&mut channel, &mut BitReader::new(&[0x20, 0x00])).unwrap();
    assert!(channel.intensity.iter().all(|&value| value == 2));

    let mut writer = BitWriter::new(8);
    writer.write(2, 4);
    writer.write(3, 2);
    for value in 1..HCA_SUBFRAMES as u32 {
        writer.write(value, 4);
    }
    ClHca::unpack_delta_intensity(&mut channel, &mut BitReader::new(writer.data())).unwrap();
    assert_eq!(channel.intensity, [2, 1, 2, 3, 4, 5, 6, 7]);
}

#[test]
fn test_deq_used_matches_read_bit_table() {
    // Prefix resolutions (0..=7): the arithmetic model must reproduce
    // READ_BIT_TABLE for every fixed-width code.
    for res in 0..=7usize {
        let bits = MAX_BIT_TABLE[res] as u32;
        for code in 0..(1u32 << bits) {
            let expect = READ_BIT_TABLE[(res << 4) + code as usize] as u32;
            let got = DEQ_USED_BASE[res] as u32 + (code >= DEQ_USED_THRESH[res] as u32) as u32;
            assert_eq!(got, expect, "res {res} code {code}");
        }
    }
    // Sign-magnitude resolutions (8..=15): bits-1 when magnitude is 0.
    for res in 8..16usize {
        let bits = MAX_BIT_TABLE[res] as u32;
        for code in 0..(1u32 << bits) {
            let expect = if code >> 1 == 0 { bits - 1 } else { bits };
            let got = DEQ_USED_BASE[res] as u32 + (code >= DEQ_USED_THRESH[res] as u32) as u32;
            assert_eq!(got, expect, "res {res} code {code}");
        }
    }
}

#[test]
fn test_clhca_clear() {
    let mut hca = ClHca::new();
    hca.version = 0x0102;
    hca.channels = 2;
    hca.clear();
    assert_eq!(hca.version, 0);
    assert_eq!(hca.channels, 0);
}

#[test]
fn test_encoder_config() {
    let config = HcaEncoderConfig::new(44100, 2).with_bitrate(256000);
    assert_eq!(config.sample_rate, 44100);
    assert_eq!(config.channels, 2);
    assert_eq!(config.bitrate, 256000);
}

#[test]
fn test_encoder_creation() {
    let config = HcaEncoderConfig::new(44100, 2);
    let encoder = HcaEncoder::new(config);
    assert!(encoder.is_ok());
}

#[test]
fn test_invalid_config() {
    let config = HcaEncoderConfig::new(0, 2);
    let encoder = HcaEncoder::new(config);
    assert!(encoder.is_err());

    let config = HcaEncoderConfig::new(44100, 0);
    let encoder = HcaEncoder::new(config);
    assert!(encoder.is_err());
}

#[test]
fn test_scale_frame_score() {
    assert_eq!(scale_frame_score(1), 1);
    assert_eq!(scale_frame_score(0), 3 * HCA_KEY_SCORE_SCALE); // 30
    assert_eq!(scale_frame_score(5), 5 * HCA_KEY_SCORE_SCALE); // 50
    assert_eq!(scale_frame_score(-1), -HCA_KEY_SCORE_SCALE); // -10
}

#[test]
fn test_finalize_score() {
    // Best possible: enough frames, small positive score
    assert_eq!(finalize_score(4, 5), 1); // total_score(4) <= test_frames(5), frames > 3
                                         // Not enough frames
    assert_eq!(finalize_score(2, 2), 2); // test_frames(2) <= MIN_TEST_FRAMES(3)
                                         // Score too high
    assert_eq!(finalize_score(100, 5), 100);
    // Negative
    assert_eq!(finalize_score(-1, 5), -1);
}

#[test]
fn test_key_test_default() {
    let kt = KeyTest::default();
    assert_eq!(kt.key, 0);
    assert_eq!(kt.subkey, 0);
    assert_eq!(kt.start_offset, 0);
    assert_eq!(kt.best_score, 0);
    assert_eq!(kt.best_key, 0);
}

#[test]
fn test_hca_decoder_error_display() {
    let err = HcaDecoderError::InvalidHeader;
    assert_eq!(err.message(), "Invalid HCA header");

    let err = HcaDecoderError::Eof;
    assert_eq!(err.message(), "End of file");

    let err = HcaDecoderError::InvalidSampleRange;
    assert_eq!(err.message(), "Invalid sample range");
}
