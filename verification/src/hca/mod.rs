//! HCA audio streams.

pub mod alone_law;
pub mod bitreader;
pub mod bits;
pub mod block;
pub mod budget;
pub mod budget_law;
pub mod choice_law;
pub mod code_law;
pub mod crc;
pub mod decoder;
pub mod encoder;
pub mod field_law;
pub mod fill_law;
pub mod frame_law;
pub mod header_law;
pub mod hca_file;
pub mod judge_law;
pub mod key_law;
pub mod pack;
pub mod parallel;
pub mod pass_law;
pub mod rate_law;
pub mod read_law;
pub mod reconstruct;
pub mod riff_law;
pub mod samples;
pub mod scales;
pub mod schedule;
pub mod side_law;
pub mod stream_header;
pub mod stream_law;
pub mod sum_law;
pub mod tables;
pub mod unpack;
pub mod wav;
pub mod wav_law;

pub use decoder::{ClHca, HcaError, HcaInfo};
pub use encoder::{HcaEncoder, HcaEncoderConfig, HcaEncoderError};
pub use hca_file::{HcaDecoder, HcaDecoderError, KeyTest};
