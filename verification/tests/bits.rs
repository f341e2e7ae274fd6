//! Bit streams and checksums.

use cridecoder::hca::bitreader::{BitReader, BitWriter};
use cridecoder::hca::crc::{crc16_checksum, Crc16Slices, CRC16_TABLE};

#[test]
fn test_read_bits() {
    let data = [0b10110100, 0b01101001];
    let mut reader = BitReader::new(&data);

    assert_eq!(reader.read(1), 1); // 1
    assert_eq!(reader.read(1), 0); // 0
    assert_eq!(reader.read(2), 0b11); // 11
    assert_eq!(reader.read(4), 0b0100); // 0100
    assert_eq!(reader.read(4), 0b0110); // 0110
}

#[test]
fn test_peek() {
    let data = [0b10110100];
    let reader = BitReader::new(&data);

    assert_eq!(reader.peek(4), 0b1011);
    assert_eq!(reader.peek(8), 0b10110100);
}

#[test]
fn test_skip() {
    let data = [0b10110100, 0b01101001];
    let mut reader = BitReader::new(&data);

    reader.skip(4);
    assert_eq!(reader.read(4), 0b0100);
}

#[test]
fn test_read_signed() {
    let data = [0b11110000];
    let mut reader = BitReader::new(&data);

    // 4 bits: 1111 = -1 when signed
    assert_eq!(reader.read_signed(4), -1);
}

#[test]
fn test_bit_writer() {
    let mut writer = BitWriter::new(2);
    writer.write(0b1011, 4);
    writer.write(0b0100, 4);

    assert_eq!(writer.data()[0], 0b10110100);
}

#[test]
fn test_multi_byte_read() {
    // Big-endian 0x12345678
    let data = [0x12, 0x34, 0x56, 0x78];
    let mut reader = BitReader::new(&data);
    assert_eq!(reader.read(16), 0x1234);
    assert_eq!(reader.read(16), 0x5678);

    let mut reader = BitReader::new(&data);
    assert_eq!(reader.read(4), 0x1);
    assert_eq!(reader.read(4), 0x2);
    assert_eq!(reader.read(8), 0x34);
    assert_eq!(reader.read(12), 0x567);
}

#[test]
fn test_eof_reads_return_zero() {
    // A read that leaves the data returns zero, not the bits that are there.
    let data = [0xFF];
    let mut reader = BitReader::new(&data);
    assert_eq!(reader.read(8), 0xFF);
    assert_eq!(reader.read(4), 0);
    assert_eq!(reader.peek(16), 0);

    let mut reader = BitReader::new(&data);
    assert_eq!(reader.read(4), 0xF);
    assert_eq!(reader.read(8), 0);
}

#[test]
fn test_with_offset() {
    let data = [0xAB, 0xCD, 0xEF];
    let reader = BitReader::with_offset(&data, 1);
    assert_eq!(reader.position(), 8);
    assert_eq!(reader.peek(8), 0xCD);
}

#[test]
fn test_reader_helpers_and_accumulator() {
    let data = [0b0100_1101, 0b0011_0101, 0xaa, 0x55, 0xf0];
    let mut reader = BitReader::new(&data);
    assert_eq!(reader.data(), &data);
    assert_eq!(reader.peek(0), 0);
    assert_eq!(reader.peek(33), 0);
    assert!(reader.has_bits(40));
    assert_eq!(reader.remaining_bits(), 40);

    assert_eq!(reader.read_hca_bits(0), 0);
    assert_eq!(reader.read_hca_bits(3), 0b010);
    reader.advance_signed(2);
    assert_eq!(reader.position(), 5);
    reader.advance_signed(-3);
    assert_eq!(reader.position(), 2);
    reader.advance_signed(-10);
    assert_eq!(reader.position(), 0);
    assert!(!reader.read_bit());
    assert_eq!(reader.remaining_bits(), 39);

    reader.set_position(3);
    let mut acc = reader.acc();
    assert_eq!(acc.read(5), 0b01101);
    assert_eq!(acc.read(8), 0b00110101);
    acc.sync(&mut reader);
    assert_eq!(reader.position(), 16);

    reader.set_position(35);
    assert_eq!(reader.read_hca_bits(4), 0b1000);
    assert_eq!(reader.remaining_bits(), 1);
    assert!(!reader.has_bits(2));
}

#[test]
fn test_variable_values_and_writer_boundaries() {
    let mut encoded = BitWriter::new(3);
    encoded.write(0b0_1001_1010, 9);
    encoded.write(0, 0);
    encoded.write(u32::MAX, 33);
    assert_eq!(encoded.position(), 9);

    let mut reader = BitReader::new(encoded.data());
    assert_eq!(reader.read_scale_count(), (2, 10));

    let mut zero_scale = BitReader::new(&[0]);
    assert_eq!(zero_scale.read_scale_count(), (0, 0));
    assert_eq!(zero_scale.read_signed(0), 0);

    let mut positive = BitReader::new(&[0b0110_0000]);
    assert_eq!(positive.read_signed(4), 6);
    let mut off_by_one = BitReader::new(&[0b0100_0000]);
    assert_eq!(off_by_one.read_off_by_one(1), 0);
    assert_eq!(off_by_one.read_off_by_one(2), 3);

    let mut bounded = BitWriter::new(1);
    bounded.write(0xaa, 8);
    bounded.write(0xff, 8);
    assert_eq!(bounded.position(), 16);
    assert_eq!(bounded.into_vec(), vec![0xaa]);
}

fn crc16_naive(data: &[u8]) -> u16 {
    let mut sum: u16 = 0;
    for &byte in data {
        sum = (sum << 8) ^ CRC16_TABLE[((sum >> 8) ^ byte as u16) as usize];
    }
    sum
}

#[test]
fn test_crc16_slice8_matches_naive() {
    let slices = Crc16Slices::build_crc16_slice();
    // Every length class mod 8, plus a full-frame-sized pseudo-random payload.
    for len in 0..40usize {
        let data: Vec<u8> = (0..len)
            .map(|i| (i as u8).wrapping_mul(31).wrapping_add(7))
            .collect();
        assert_eq!(crc16_checksum(&data), crc16_naive(&data), "len {len}");
        assert_eq!(slices.checksum(&data), crc16_naive(&data), "len {len}");
    }
    let big: Vec<u8> = (0..682u32)
        .map(|i| (i.wrapping_mul(2654435761) >> 13) as u8)
        .collect();
    assert_eq!(crc16_checksum(&big), crc16_naive(&big));
    assert_eq!(slices.checksum(&big), crc16_naive(&big));
}

#[test]
fn test_crc16_checksum() {
    assert_eq!(crc16_checksum(&[]), 0);
    // Known CRC16 for a simple byte sequence
    let result = crc16_checksum(&[0x48, 0x43, 0x41, 0x00]);
    assert_ne!(result, 0, "CRC of non-empty data should not be 0");
}

#[test]
fn test_crc16() {
    let data = [0x48, 0x43, 0x41, 0x00];
    let crc = crc16_checksum(&data);
    assert!(crc != 0);
}

#[test]
fn a_checksum_has_known_values() {
    // The check value of the polynomial 0x8005 with no reflection and start 0.
    assert_eq!(crc16_checksum(b"123456789"), 0xFEE8);
    assert_eq!(crc16_checksum(&[1]), 0x8005);
    assert_eq!(CRC16_TABLE[1], 0x8005);
}

#[test]
fn data_with_its_checksum_sums_to_zero() {
    let mut data = b"HCA frame".to_vec();
    let crc = crc16_checksum(&data);
    data.extend_from_slice(&crc.to_be_bytes());
    assert_eq!(crc16_checksum(&data), 0);
    assert_eq!(Crc16Slices::build_crc16_slice().checksum(&data), 0);
}

#[test]
fn written_values_are_read_back() {
    let mut writer = BitWriter::new(16);
    let values: [(u32, usize); 6] = [(5, 3), (1023, 10), (0, 1), (0xDEAD, 16), (1, 1), (77, 8)];
    for (v, n) in values {
        writer.write(v, n);
    }
    let bytes = writer.into_vec();
    let mut reader = BitReader::new(&bytes);
    let mut acc = reader.acc();
    for (v, n) in values {
        assert_eq!(acc.read(n as u32), v);
    }
    acc.sync(&mut reader);
    assert_eq!(reader.position(), 39);
    reader.set_position(0);
    for (v, n) in values {
        assert_eq!(reader.read(n), v);
    }
}

#[test]
fn an_accumulator_peeks_without_moving() {
    let data = [0xA5, 0x5A, 0xFF];
    let mut reader = BitReader::new(&data);
    let mut acc = reader.acc();
    assert_eq!(acc.peek(4), 0xA);
    assert_eq!(acc.peek(12), 0xA55);
    acc.consume(4);
    assert_eq!(acc.peek(8), 0x55);
    acc.sync(&mut reader);
    assert_eq!(reader.position(), 4);
}

#[test]
fn a_known_width_past_the_end_is_zero() {
    let data = [0xFF];
    let mut reader = BitReader::new(&data);
    reader.set_position(4);
    assert_eq!(reader.read_hca_bits(8), 0);
    assert_eq!(reader.position(), 12);
    reader.set_position(4);
    assert_eq!(reader.read(8), 0);
    reader.set_position(4);
    assert_eq!(reader.read_hca_bits(4), 0xF);
}
