//! HCA streams written by the encoder and read by the decoder.

use cridecoder::hca::budget::{band_cost, calculate_resolution};
use cridecoder::hca::crc::crc16_checksum;
use cridecoder::hca::decoder::{ChannelType, ClHca, HcaError};
use cridecoder::hca::encoder::{HcaEncoder, HcaEncoderConfig, HcaEncoderError};
use cridecoder::hca::hca_file::{
    block_keep_range, combine_key, frame_room, keep_samples, write_pcm_i16_le, ChunkOrder,
    HcaDecoder, HcaDecoderError, KeyTest, KeyTrial,
};
use cridecoder::hca::parallel::{
    resolve_threads, seed_block, unit_blocks, work_units, worker_count, CHUNK_BLOCKS,
};
use cridecoder::hca::samples::{pcm_f32_to_i16, sample_quality};
use cridecoder::hca::scales::{find_scale_factor, intensity_of_ratio};
use cridecoder::hca::schedule::{sum_step_at, turn_step_at, STEPS};
use cridecoder::hca::stream_header::mask_header;
use cridecoder::hca::tables::MAX_BIT_TABLE;
use cridecoder::hca::wav::{parse_wav, scan_wav};
use cridecoder::reader::{Cursor, IoError};

fn identity() -> [u8; 256] {
    let mut table = [0u8; 256];
    for (i, t) in table.iter_mut().enumerate() {
        *t = i as u8;
    }
    table
}

/// A permutation that leaves zero and the sync byte alone.
fn scrambled() -> [u8; 256] {
    let mut table = identity();
    for i in 1..255usize {
        table[i] = ((i * 7) % 255) as u8;
    }
    table
}

fn costs(channels: usize) -> Vec<[[u32; 16]; 128]> {
    let mut one = [[0u32; 16]; 128];
    for band in one.iter_mut() {
        for (r, cost) in band.iter_mut().enumerate() {
            *cost = 8 * MAX_BIT_TABLE[r] as u32;
        }
    }
    vec![one; channels]
}

/// An encoder with a frame of small values in every band.
fn filled(config: HcaEncoderConfig) -> (HcaEncoder, u32, u32) {
    let channels = config.channels as usize;
    let mut encoder = HcaEncoder::new(config).unwrap();
    for c in 0..channels {
        let coded = encoder.channel[c].coded_count;
        for b in 0..coded {
            encoder.channel[c].scale_factors[b] = 20 + (b % 5) as u8;
        }
        encoder.channel[c].intensity = [3, 1, 4, 1, 5, 9, 2, 6];
        for g in 0..encoder.hfr_group_count as usize {
            encoder.channel[c].hfr_scales[g] = 30 + g as u8;
        }
    }
    let (level, boundary) = encoder.choose_levels(&costs(channels)).unwrap();
    for c in 0..channels {
        let coded = encoder.channel[c].coded_count;
        for s in 0..8 {
            for b in 0..coded {
                let v = if encoder.channel[c].resolutions[b] > 0 {
                    (s + b) as i32 % 3 - 1
                } else {
                    0
                };
                encoder.channel[c].quantized_spectra[s][b] = v;
            }
        }
    }
    (encoder, level, boundary)
}

/// A stream of two equal frames.
fn stream(config: HcaEncoderConfig, cipher: Option<[u8; 256]>) -> (Vec<u8>, HcaEncoder) {
    let (mut encoder, level, boundary) = filled(config);
    if let Some(table) = cipher {
        encoder.set_cipher_table(&table);
    }
    let channels = encoder.config.channels as usize;
    let frames = encoder.plan_frames(1500 * channels).unwrap();
    assert_eq!(frames, 2);
    let mut out = Vec::new();
    encoder.write_header(&mut out, frames);
    for _ in 0..frames {
        let frame = encoder.finish_frame(level, boundary).unwrap();
        assert_eq!(frame.len(), encoder.frame_size as usize);
        out.extend_from_slice(&frame);
    }
    (out, encoder)
}

fn assert_same(hca: &ClHca, encoder: &HcaEncoder) {
    for c in 0..encoder.config.channels as usize {
        let sent = &encoder.channel[c];
        let got = &hca.channel[c];
        assert_eq!(got.coded_count, sent.coded_count);
        for b in 0..sent.coded_count {
            assert_eq!(got.scale_factors[b], sent.scale_factors[b]);
            assert_eq!(got.resolution[b], sent.resolutions[b]);
            for s in 0..8 {
                assert_eq!(got.codes[s][b], sent.quantized_spectra[s][b]);
            }
        }
        if sent.channel_type == ChannelType::StereoSecondary {
            assert_eq!(got.intensity, sent.intensity);
        } else {
            let groups = encoder.hfr_group_count as usize;
            for g in 0..groups {
                assert_eq!(got.scale_factors[128 - groups + g], sent.hfr_scales[g]);
            }
        }
    }
}

#[test]
fn a_packed_frame_is_read_back() {
    for config in [
        HcaEncoderConfig::new(44100, 1),
        HcaEncoderConfig::new(48000, 2),
        HcaEncoderConfig::new(44100, 2).with_bitrate(96_000),
    ] {
        let (bytes, encoder) = stream(config, None);
        let mut decoder = HcaDecoder::from_reader(Cursor::new(bytes)).unwrap();
        decoder.initialize(Some([0; 128]), &identity()).unwrap();
        for _ in 0..2 {
            decoder.unpack_frame().unwrap();
            assert_same(decoder.handle(), &encoder);
        }
        assert!(matches!(decoder.unpack_frame(), Err(HcaDecoderError::Eof)));
    }
}

#[test]
fn an_encrypted_frame_is_read_back() {
    let config = HcaEncoderConfig::new(44100, 2).with_encryption(0x1234_5678);
    let (bytes, encoder) = stream(config, Some(scrambled()));
    // The letters of the header are masked.
    assert_eq!(&bytes[..4], &[0xC8, 0xC3, 0xC1, 0x00]);
    let mut decoder = HcaDecoder::from_reader(Cursor::new(bytes.clone())).unwrap();
    assert!(decoder.info().encryption_enabled);
    decoder.initialize(Some([0; 128]), &identity()).unwrap();
    decoder.set_encryption_key(0x1234_5678, 0, &scrambled());
    decoder.unpack_frame().unwrap();
    assert_same(decoder.handle(), &encoder);

    // Another table gives other bits.
    let mut wrong = HcaDecoder::from_reader(Cursor::new(bytes)).unwrap();
    wrong.initialize(Some([0; 128]), &identity()).unwrap();
    let readable = wrong.unpack_frame().is_ok();
    let same = readable
        && (0..encoder.channel[0].coded_count)
            .all(|b| wrong.handle().channel[0].scale_factors[b] == encoder.channel[0].scale_factors[b]);
    assert!(!same);
}

#[test]
fn a_written_header_is_read_back() {
    let mut config = HcaEncoderConfig::new(44100, 2);
    config.loop_start = Some(1000);
    config.loop_end = Some(1400);
    let (bytes, encoder) = stream(config, None);
    assert_eq!(&bytes[..4], b"HCA\0");
    assert_eq!(ClHca::is_hca_file(&bytes), Some(0x60));
    let decoder = HcaDecoder::from_reader(Cursor::new(bytes)).unwrap();
    let info = decoder.info();
    assert_eq!(info.version, 0x0200);
    assert_eq!(info.sampling_rate, 44100);
    assert_eq!(info.channel_count, 2);
    assert_eq!(info.block_count, 2);
    assert_eq!(info.block_size, encoder.frame_size);
    assert_eq!(info.encoder_delay, 128);
    assert_eq!(info.encoder_padding, 2048 - 128 - 1500);
    assert!(info.loop_enabled);
    // 1128 and 1528 lie in the second block.
    assert_eq!((info.loop_start_block, info.loop_start_delay), (1, 104));
    assert_eq!((info.loop_end_block, info.loop_end_padding), (1, 520));
    assert_eq!(decoder.total_valid_samples(), 1500);
    assert!(!info.encryption_enabled);
}

#[test]
fn a_header_can_be_refused() {
    let (bytes, _) = stream(HcaEncoderConfig::new(44100, 2), None);
    let open = |d: Vec<u8>| HcaDecoder::from_reader(Cursor::new(d)).map(|_| ());
    assert!(open(bytes.clone()).is_ok());
    assert!(matches!(
        open(bytes[..7].to_vec()),
        Err(HcaDecoderError::Io(IoError::UnexpectedEof))
    ));
    assert!(matches!(
        open(bytes[..0x50].to_vec()),
        Err(HcaDecoderError::Io(IoError::UnexpectedEof))
    ));
    let mut other = bytes.clone();
    other[0] = b'X';
    assert!(matches!(open(other), Err(HcaDecoderError::InvalidHeader)));
    let mut flipped = bytes.clone();
    flipped[20] ^= 1;
    assert!(matches!(
        open(flipped),
        Err(HcaDecoderError::Hca(HcaError::ChecksumFailed))
    ));
}

#[test]
fn a_block_can_be_refused() {
    let (bytes, _) = stream(HcaEncoderConfig::new(44100, 2), None);
    let mut blank = HcaDecoder::from_reader(Cursor::new(bytes.clone())).unwrap();
    assert!(matches!(
        blank.unpack_frame(),
        Err(HcaDecoderError::Hca(HcaError::InvalidParams))
    ));
    assert!(matches!(
        blank.initialize(None, &identity()),
        Err(HcaDecoderError::Hca(HcaError::InvalidHeader))
    ));
    let mut bad = bytes.clone();
    bad[0x60] = 0;
    let mut decoder = HcaDecoder::from_reader(Cursor::new(bad)).unwrap();
    decoder.initialize(Some([0; 128]), &identity()).unwrap();
    assert!(matches!(
        decoder.unpack_frame(),
        Err(HcaDecoderError::Hca(HcaError::SyncError))
    ));
    let mut flipped = bytes.clone();
    flipped[0x60 + 40] ^= 4;
    let mut decoder = HcaDecoder::from_reader(Cursor::new(flipped)).unwrap();
    decoder.initialize(Some([0; 128]), &identity()).unwrap();
    assert!(matches!(
        decoder.unpack_frame(),
        Err(HcaDecoderError::Hca(HcaError::ChecksumFailed))
    ));
    // The second block still reads.
    assert!(decoder.unpack_frame().is_ok());
    let mut cut = bytes.clone();
    cut.truncate(0x60 + 10);
    let mut decoder = HcaDecoder::from_reader(Cursor::new(cut)).unwrap();
    assert!(matches!(
        decoder.read_packet(),
        Err(HcaDecoderError::Io(IoError::UnexpectedEof))
    ));
    assert!(matches!(
        decoder.read_blocks(),
        Err(HcaDecoderError::Io(IoError::UnexpectedEof))
    ));
    let mut whole = HcaDecoder::from_reader(Cursor::new(bytes.clone())).unwrap();
    assert_eq!(whole.read_blocks().unwrap(), bytes[0x60..].to_vec());
}

#[test]
fn a_frame_that_is_too_large_is_refused() {
    let (mut encoder, level, boundary) = filled(HcaEncoderConfig::new(44100, 2));
    encoder.frame_size = 40;
    assert!(matches!(
        encoder.finish_frame(level, boundary),
        Err(HcaEncoderError::FrameTooLarge)
    ));
    assert!(matches!(encoder.plan_frames(0), Err(HcaEncoderError::NoSamples)));
}

#[test]
fn the_level_is_the_least_that_fits() {
    // Plenty of room: no noise is accepted.
    let (_, level, boundary) = filled(HcaEncoderConfig::new(44100, 1).with_bitrate(700_000));
    assert_eq!((level, boundary), (0, 0));
    let (_, tight, _) = filled(HcaEncoderConfig::new(44100, 1).with_bitrate(64_000));
    assert!(tight > 0);
}

#[test]
fn masking_a_header_sets_the_high_bits() {
    let mut header = vec![0u8; 94];
    header[..4].copy_from_slice(b"HCA\0");
    header[8..12].copy_from_slice(b"fmt\0");
    mask_header(&mut header);
    assert_eq!(&header[..4], &[0xC8, 0xC3, 0xC1, 0x00]);
    assert_eq!(&header[8..12], &[0xE6, 0xED, 0xF4, 0x00]);
    assert!(header[12..24].iter().all(|&b| b == 0));
}

#[test]
fn samples_leave_trimmed() {
    let (bytes, _) = stream(HcaEncoderConfig::new(44100, 2), None);
    let mut decoder = HcaDecoder::from_reader(Cursor::new(bytes)).unwrap();
    decoder.initialize(Some([0; 128]), &identity()).unwrap();
    let mut kept = Vec::new();
    for block in 0..2u32 {
        decoder.unpack_frame().unwrap();
        let (start, count) = decoder.take_frame();
        kept.push((start, count));
        // Trimming by the position of the block says the same.
        let (low, high) = block_keep_range(block, 128, 1500);
        assert_eq!((low, high - low), (start, count));
    }
    assert_eq!(kept, vec![(128, 896), (0, 604)]);
    decoder.reset();
    decoder.unpack_frame().unwrap();
    assert_eq!(decoder.take_frame(), (128, 896));
    decoder.seek(1000);
    decoder.unpack_frame().unwrap();
    assert!(matches!(decoder.unpack_frame(), Err(HcaDecoderError::Eof)));
}

#[test]
fn kept_samples_are_written_in_order() {
    let frame: Vec<i16> = (0..8).collect();
    assert_eq!(keep_samples(&frame, 2, 1, 2).unwrap(), vec![2, 3, 4, 5]);
    let mut out = Vec::new();
    write_pcm_i16_le(&mut out, &[1, -2, 0x1234]);
    assert_eq!(out, vec![1, 0, 0xfe, 0xff, 0x34, 0x12]);
}

#[test]
fn a_wav_header_states_its_sizes() {
    let (bytes, _) = stream(HcaEncoderConfig::new(44100, 2), None);
    let decoder = HcaDecoder::from_reader(Cursor::new(bytes)).unwrap();
    let header = decoder.wav_header(6000, 0);
    assert_eq!(header.len(), 44);
    assert_eq!(&header[..4], b"RIFF");
    assert_eq!(&header[4..8], &6036u32.to_le_bytes());
    assert_eq!(&header[8..16], b"WAVEfmt ");
    assert_eq!(&header[22..24], &2u16.to_le_bytes());
    assert_eq!(&header[24..28], &44100u32.to_le_bytes());
    assert_eq!(&header[28..32], &176400u32.to_le_bytes());
    assert_eq!(&header[36..40], b"data");
    assert_eq!(&header[40..44], &6000u32.to_le_bytes());
    assert!(decoder.loop_smpl_chunk().is_empty());
}

#[test]
fn a_loop_chunk_names_its_samples() {
    let mut config = HcaEncoderConfig::new(44100, 2);
    config.loop_start = Some(1000);
    config.loop_end = Some(1400);
    let (bytes, _) = stream(config, None);
    let decoder = HcaDecoder::from_reader(Cursor::new(bytes)).unwrap();
    let chunk = decoder.loop_smpl_chunk();
    assert_eq!(&chunk[..4], b"smpl");
    assert_eq!(chunk.len(), 68);
    assert_eq!(&chunk[52..56], &1000u32.to_le_bytes());
}

#[test]
fn keys_combine_with_subkeys() {
    assert_eq!(combine_key(0x1234, 0), 0x1234);
    assert_eq!(combine_key(1, 1), (1u64 << 16) | 65536);
    assert_eq!(combine_key(3, 2), 3 * ((2u64 << 16) | 65535));
}

#[test]
fn parts_leave_in_order_however_they_arrive() {
    let parts: Vec<Vec<u8>> = (0..4u8).map(|i| vec![i; i as usize + 1]).collect();
    let want: Vec<u8> = parts.concat();
    for order in [[0usize, 1, 2, 3], [3, 2, 1, 0], [2, 0, 3, 1], [1, 3, 0, 2]] {
        let mut chunks = ChunkOrder::new(4);
        for (n, i) in order.into_iter().enumerate() {
            assert!(!chunks.is_done());
            chunks.arrive(i, parts[i].clone());
            assert_eq!(chunks.is_done(), n == 3);
            assert!(want.starts_with(chunks.left()));
        }
        assert_eq!(chunks.into_bytes(), want);
    }
}

#[test]
fn units_cover_all_blocks() {
    for blocks in [0usize, 1, 31, 32, 33, 64, 1000] {
        let units = work_units(blocks);
        let mut next = 0;
        for unit in 0..units {
            let (lo, hi) = unit_blocks(unit, blocks);
            assert_eq!(lo, next);
            assert!(hi > lo && hi - lo <= CHUNK_BLOCKS);
            assert_eq!(seed_block(lo), if lo == 0 { None } else { Some(lo - 1) });
            next = hi;
        }
        assert_eq!(next, blocks);
    }
    assert_eq!(worker_count(8, 3), 3);
    assert_eq!(worker_count(2, 3), 2);
    assert_eq!(resolve_threads(None, Some(8)), 1);
    assert_eq!(resolve_threads(Some(0), Some(8)), 8);
    assert_eq!(resolve_threads(Some(0), None), 1);
    assert_eq!(resolve_threads(Some(5), Some(8)), 5);
}

#[test]
fn a_key_trial_counts_scores() {
    let mut kt = KeyTest::default();
    let mut trial = KeyTrial::new(&kt, 0x60, 0x100, 100);
    let mut seen = 0;
    while trial.wants_block() {
        trial.take_score(&mut kt, 1);
        seen += 1;
        assert!(seen < 100);
    }
    // Seven good frames make the best score.
    assert_eq!(seen, 7);
    assert_eq!(trial.score(), 1);
    assert_ne!(kt.start_offset, 0);
    kt.key = 99;
    kt.judge(1);
    assert_eq!((kt.best_score, kt.best_key), (1, 99));
    kt.key = 7;
    kt.judge(50);
    assert_eq!((kt.best_score, kt.best_key), (1, 99));
    kt.judge(-1);
    assert_eq!((kt.best_score, kt.best_key), (1, 99));

    let mut stopped = KeyTrial::new(&kt, 0x60, 0x100, 100);
    assert!(stopped.wants_block());
    stopped.no_block();
    assert!(!stopped.wants_block());

    let mut bad = KeyTrial::new(&kt, 0x60, 0x100, 100);
    bad.take_score(&mut kt, -1);
    assert!(!bad.wants_block());
    assert!(bad.score() < 0);
}

fn wav(bits: u16, data: &[u8]) -> Vec<u8> {
    let mut out = Vec::new();
    out.extend_from_slice(b"RIFF");
    out.extend_from_slice(&(36 + data.len() as u32).to_le_bytes());
    out.extend_from_slice(b"WAVEfmt ");
    out.extend_from_slice(&16u32.to_le_bytes());
    out.extend_from_slice(&1u16.to_le_bytes());
    out.extend_from_slice(&1u16.to_le_bytes());
    out.extend_from_slice(&22050u32.to_le_bytes());
    out.extend_from_slice(&44100u32.to_le_bytes());
    out.extend_from_slice(&2u16.to_le_bytes());
    out.extend_from_slice(&bits.to_le_bytes());
    out.extend_from_slice(b"data");
    out.extend_from_slice(&(data.len() as u32).to_le_bytes());
    out.extend_from_slice(data);
    out
}

#[test]
fn a_wav_file_gives_its_samples() {
    let bytes = wav(16, &[1, 0, 0xff, 0xff, 0, 0x80]);
    let layout = scan_wav(&bytes).unwrap();
    assert_eq!(layout.channels, 1);
    assert_eq!(layout.sample_rate, 22050);
    assert_eq!(layout.bits_per_sample, 16);
    assert_eq!((layout.data_start, layout.data_len), (44, 6));
    let audio = parse_wav(&bytes).unwrap();
    assert_eq!(audio.samples, vec![1, -1, -32768]);
    let three = parse_wav(&wav(24, &[1, 0, 0x80, 0xff, 0xff, 0x7f])).unwrap();
    assert_eq!(three.samples, vec![-8388607, 8388607]);
    assert!(parse_wav(b"nothing").is_err());
}

#[test]
fn a_stage_touches_every_value_once() {
    for width in [1usize, 2, 4, 8, 16, 32, 64] {
        for step_at in [sum_step_at, turn_step_at] {
            let mut read = vec![0; 128];
            let mut written = vec![0; 128];
            for n in 0..STEPS {
                let step = step_at(width, n);
                read[step.first] += 1;
                read[step.second] += 1;
                written[step.low] += 1;
                written[step.high] += 1;
            }
            assert_eq!(read, vec![1; 128]);
            assert_eq!(written, vec![1; 128]);
        }
    }
    let step = sum_step_at(2, 3);
    assert_eq!((step.first, step.second, step.low, step.high), (6, 7, 5, 7));
    let step = turn_step_at(2, 3);
    assert_eq!((step.first, step.second, step.low, step.high), (5, 7, 5, 6));
}

#[test]
fn costs_are_the_bits_of_the_values() {
    assert_eq!(band_cost(0, &[3; 8]), 0);
    // One bit for zero, two for the others.
    assert_eq!(band_cost(1, &[0, 1, -1, 0, 0, 0, 0, 0]), 10);
    assert_eq!(band_cost(7, &[0; 8]), 24);
    assert_eq!(band_cost(7, &[100; 8]), 32);
    // A sign bit for values other than zero.
    assert_eq!(band_cost(15, &[0, 5, -5, 0, 0, 0, 0, 0]), 8 * 11 + 2);
    assert_eq!(calculate_resolution(0, 5), 0);
    assert_eq!(calculate_resolution(63, 0), 15);
}

#[test]
fn a_finished_stream_has_no_more_blocks() {
    let (bytes, _) = stream(HcaEncoderConfig::new(44100, 2), None);
    let mut decoder = HcaDecoder::from_reader(Cursor::new(bytes)).unwrap();
    decoder.initialize(Some([0; 128]), &identity()).unwrap();
    decoder.finish();
    assert!(matches!(decoder.read_packet(), Err(HcaDecoderError::Eof)));
    decoder.reset();
    assert!(decoder.read_packet().is_ok());
    // No band is without a resolution in these streams.
    decoder.unpack_frame().unwrap();
    assert!(decoder.fill_noise(0).is_empty());
    assert!(decoder.handle().has_scale_room());
    assert!(decoder.handle().is_block_parallelizable());
}

#[test]
fn samples_are_judged_by_their_bits() {
    let reference = |v: f32| ((v * 32768.0) as i32).clamp(-32768, 32767) as i16;
    for v in [
        0.0f32, -0.0, 1.0, -1.0, 0.99999, -0.99999, 1.5, -7.0, 3.05e-5, 3.0e-5, -3.05e-5, 1.0e-40,
        f32::INFINITY, f32::NEG_INFINITY, f32::NAN, 0.3333, -0.6667, 1.0e30,
    ] {
        assert_eq!(pcm_f32_to_i16(v.to_bits()), reference(v), "{v}");
        let clipped = !(-1.0..=1.0).contains(&v);
        let pcm = (v * 32768.0) as i32;
        let blank = !clipped && (pcm == 0 || pcm == -1);
        assert_eq!(sample_quality(v.to_bits()), (clipped as i32, blank as i32), "{v}");
    }
    let mut hca = ClHca::new();
    hca.channels = 2;
    let silent = vec![0u32; 1024];
    let loud = vec![0.5f32.to_bits(); 1024];
    let mut clipped = loud.clone();
    clipped[7] = 2.0f32.to_bits();
    assert_eq!(hca.evaluate_decode_quality(&vec![silent.clone(), silent.clone()]), 0);
    assert_eq!(hca.evaluate_decode_quality(&vec![silent.clone(), loud.clone()]), 3);
    assert_eq!(hca.evaluate_decode_quality(&vec![loud.clone(), silent]), 1);
    assert_eq!(hca.evaluate_decode_quality(&vec![clipped, loud]), 2);
}

#[test]
fn scale_factors_are_the_first_above_a_value() {
    let mut sizes = [0u32; 64];
    for (i, s) in sizes.iter_mut().enumerate() {
        *s = (0.001f32 * 1.3f32.powi(i as i32)).to_bits();
    }
    for v in [0.0f32, 0.0005, 0.001, 0.0011, 0.5, 100.0, 1.0e9] {
        let want = (0..63).find(|&i| f32::from_bits(sizes[i]) > v).unwrap_or(63);
        assert_eq!(find_scale_factor(&sizes, v.to_bits()) as usize, want, "{v}");
    }
    let mut bounds = [0u32; 14];
    for (i, b) in bounds.iter_mut().enumerate() {
        *b = ((27 - 2 * i) as f32 / 14.0).to_bits();
    }
    assert_eq!(intensity_of_ratio(&bounds, 2.0f32.to_bits()), 1);
    assert_eq!(intensity_of_ratio(&bounds, 1.0f32.to_bits()), 7);
    assert_eq!(intensity_of_ratio(&bounds, 0.0f32.to_bits()), 13);
}

#[test]
fn a_block_reads_the_same_after_another() {
    let config = HcaEncoderConfig::new(44100, 2).with_bitrate(96_000);
    let (mut encoder, level, boundary) = filled(config);
    let frames = encoder.plan_frames(3000).unwrap();
    let mut header = Vec::new();
    encoder.write_header(&mut header, frames);
    let first = encoder.finish_frame(level, boundary).unwrap();
    for channel in encoder.channel.iter_mut() {
        channel.intensity = [2, 7, 1, 8, 2, 8, 1, 8];
        for row in channel.quantized_spectra.iter_mut() {
            for v in row.iter_mut() {
                *v = -*v;
            }
        }
    }
    let second = encoder.finish_frame(level, boundary).unwrap();
    assert_ne!(first, second);

    let in_order: Vec<u8> = [&header[..], &first[..], &second[..]].concat();
    let at_once: Vec<u8> = [&header[..], &second[..], &first[..]].concat();
    let mut a = HcaDecoder::from_reader(Cursor::new(in_order)).unwrap();
    let mut b = HcaDecoder::from_reader(Cursor::new(at_once)).unwrap();
    a.initialize(Some([0; 128]), &identity()).unwrap();
    b.initialize(Some([0; 128]), &identity()).unwrap();
    a.unpack_frame().unwrap();
    a.unpack_frame().unwrap();
    b.unpack_frame().unwrap();
    assert_same(a.handle(), &encoder);
    assert_same(b.handle(), &encoder);
    for c in 0..2 {
        let (x, y) = (&a.handle().channel[c], &b.handle().channel[c]);
        assert_eq!(x.noise_count, y.noise_count);
        assert_eq!(x.valid_count, y.valid_count);
        assert_eq!(x.resolution, y.resolution);
        assert_eq!(x.codes, y.codes);
    }
}

#[test]
fn a_cut_list_of_intensities_keeps_none_of_an_earlier_block() {
    let config = HcaEncoderConfig::new(44100, 2).with_bitrate(64_000);
    let (mut encoder, level, boundary) = filled(config);
    let side = encoder
        .channel
        .iter()
        .position(|c| c.channel_type == ChannelType::StereoSecondary)
        .unwrap();
    let frames = encoder.plan_frames(3000).unwrap();
    let mut header = Vec::new();
    encoder.write_header(&mut header, frames);
    let first = encoder.finish_frame(level, boundary).unwrap();
    for channel in encoder.channel.iter_mut() {
        channel.intensity = [15; 8];
    }
    let second = encoder.finish_frame(level, boundary).unwrap();

    let in_order: Vec<u8> = [&header[..], &first[..], &second[..]].concat();
    let at_once: Vec<u8> = [&header[..], &second[..], &first[..]].concat();
    let mut a = HcaDecoder::from_reader(Cursor::new(in_order)).unwrap();
    let mut b = HcaDecoder::from_reader(Cursor::new(at_once)).unwrap();
    a.initialize(Some([0; 128]), &identity()).unwrap();
    b.initialize(Some([0; 128]), &identity()).unwrap();
    assert!(a.handle().is_block_parallelizable());
    a.unpack_frame().unwrap();
    assert_eq!(a.handle().channel[side].intensity, [3, 1, 4, 1, 5, 9, 2, 6]);
    a.unpack_frame().unwrap();
    b.unpack_frame().unwrap();
    assert_eq!(a.handle().channel[side].intensity, [15, 0, 0, 0, 0, 0, 0, 0]);
    assert_eq!(b.handle().channel[side].intensity, [15, 0, 0, 0, 0, 0, 0, 0]);
    for c in 0..2 {
        let (x, y) = (&a.handle().channel[c], &b.handle().channel[c]);
        assert_eq!(x.resolution, y.resolution);
        assert_eq!(x.codes, y.codes);
    }
}

#[test]
fn a_buffer_must_hold_a_frame() {
    assert!(frame_room(2048, 2).is_ok());
    assert!(frame_room(0, 0).is_ok());
    assert!(matches!(frame_room(2047, 2), Err(HcaDecoderError::InvalidSampleRange)));
}

#[test]
fn a_key_and_a_subkey_read_as_no_key_does() {
    let keycode = 0x0011_2233_4455_6677u64;
    let subkey = 0x1234u64;
    let key = keycode.wrapping_mul((subkey << 16) | (0xFFFF - subkey + 2));
    assert_eq!(combine_key(keycode, subkey), key);
    let config = HcaEncoderConfig::new(44100, 2);
    let (hidden, _) = stream(config.with_encryption(key), Some(scrambled()));
    let (open, encoder) = stream(config, None);
    assert_ne!(hidden, open);
    let mut a = HcaDecoder::from_reader(Cursor::new(hidden)).unwrap();
    let mut b = HcaDecoder::from_reader(Cursor::new(open)).unwrap();
    a.initialize(Some([0; 128]), &identity()).unwrap();
    a.set_encryption_key(keycode, subkey, &scrambled());
    b.initialize(Some([0; 128]), &identity()).unwrap();
    for _ in 0..2 {
        a.unpack_frame().unwrap();
        b.unpack_frame().unwrap();
        assert_same(a.handle(), &encoder);
        assert_same(b.handle(), &encoder);
    }
}

#[test]
fn as_many_samples_come_out_as_went_in() {
    for (channels, count) in [(1u32, 1usize), (2, 2999), (2, 3000), (1, 896), (1, 897)] {
        let (mut encoder, level, boundary) = filled(HcaEncoderConfig::new(44100, channels));
        let frames = encoder.plan_frames(count).unwrap();
        let mut bytes = Vec::new();
        encoder.write_header(&mut bytes, frames);
        for _ in 0..frames {
            bytes.extend_from_slice(&encoder.finish_frame(level, boundary).unwrap());
        }
        let mut decoder = HcaDecoder::from_reader(Cursor::new(bytes)).unwrap();
        decoder.initialize(Some([0; 128]), &identity()).unwrap();
        let want = count.div_ceil(channels as usize);
        assert_eq!(decoder.total_valid_samples(), want as u64);
        for _ in 0..2 {
            decoder.reset();
            let mut got = 0;
            while decoder.unpack_frame().is_ok() {
                got += decoder.take_frame().1;
            }
            assert_eq!(got, want);
        }
    }
}

/// A stream whose header states other band counts: total, base, stereo and the
/// bands of a group.
fn with_bands(bands: [u8; 4]) -> Vec<u8> {
    let (mut bytes, _) = stream(HcaEncoderConfig::new(44100, 2), None);
    bytes[34..38].copy_from_slice(&bands);
    let sum = crc16_checksum(&bytes[..0x5E]);
    bytes[0x5E..0x60].copy_from_slice(&sum.to_be_bytes());
    bytes
}

#[test]
fn a_header_may_code_more_bands_than_its_total() {
    let mut whole = HcaDecoder::from_reader(Cursor::new(with_bands([10, 12, 2, 0]))).unwrap();
    whole.initialize(Some([0; 128]), &identity()).unwrap();
    assert_eq!(whole.handle().hfr_group_count, 0);
    assert_eq!(whole.handle().channel[0].coded_count, 14);
    assert!(whole.handle().has_scale_room());
    assert_eq!(whole.handle().reconstruct_high_frequency(0), (vec![], None));

    // The bands that are left over count in 32 bits.
    let mut wrapped = HcaDecoder::from_reader(Cursor::new(with_bands([10, 12, 2, 3]))).unwrap();
    wrapped.initialize(Some([0; 128]), &identity()).unwrap();
    assert_eq!(wrapped.handle().hfr_group_count, 0xFFFF_FFFC / 3);
    assert!(!wrapped.handle().has_scale_room());
    assert_eq!(wrapped.handle().reconstruct_high_frequency(0), (vec![], Some(13)));

    for bands in [[129, 12, 2, 0], [128, 127, 2, 0], [128, 12, 2, 129]] {
        assert!(matches!(
            HcaDecoder::from_reader(Cursor::new(with_bands(bands))),
            Err(HcaDecoderError::Hca(HcaError::InvalidHeader))
        ));
    }
}

#[test]
fn a_decoder_tells_of_its_stream_once_it_is_ready() {
    let mut hca = ClHca::new();
    assert!(matches!(hca.get_info(), Err(HcaError::NotInitialized)));
    assert!(hca.decode_header(&[0; 16]).is_err());
    assert!(matches!(hca.get_info(), Err(HcaError::NotInitialized)));
    let (bytes, _) = stream(HcaEncoderConfig::new(44100, 2), None);
    hca.decode_header(&bytes[..0x60]).unwrap();
    hca.initialize_decoder_state(Some([0; 128]), &identity()).unwrap();
    let info = hca.get_info().unwrap();
    assert_eq!((info.channel_count, info.sampling_rate, info.block_count), (2, 44100, 2));
}

#[test]
fn a_second_pass_gives_what_the_first_one_gave() {
    let (bytes, _) = stream(HcaEncoderConfig::new(44100, 2).with_bitrate(96_000), None);
    let mut decoder = HcaDecoder::from_reader(Cursor::new(bytes)).unwrap();
    decoder.initialize(Some([0; 128]), &identity()).unwrap();
    let mut passes = Vec::new();
    for _ in 0..2 {
        decoder.reset();
        let mut pass = Vec::new();
        while decoder.unpack_frame().is_ok() {
            let mut block = Vec::new();
            for ch in 0..2 {
                let noise = decoder.fill_noise(ch);
                let c = &decoder.handle().channel[ch];
                let high = decoder.handle().reconstruct_high_frequency(ch);
                block.push((c.codes, c.resolution, c.intensity, high, noise));
            }
            pass.push((block, decoder.take_frame()));
        }
        assert_eq!(pass.len(), 2);
        passes.push(pass);
    }
    assert!(passes[0] == passes[1]);
}
