//! Typed reads, text decoding and alignment.

use cridecoder::reader::{align, decode_cri_string, pick_decoding, Cursor, IoError, Reader, SeekFrom};

#[test]
fn test_read_u32() {
    let data = [0x12, 0x34, 0x56, 0x78];
    let mut reader = Reader::new(Cursor::new(data.to_vec()));
    assert_eq!(reader.read_u32().unwrap(), 0x12345678);
}

#[test]
fn test_read_string0() {
    let data = b"hello\0world";
    let mut reader = Reader::new(Cursor::new(data.to_vec()));
    assert_eq!(reader.read_string0().unwrap(), "hello");
}

#[test]
fn test_align() {
    assert_eq!(align(4, 0), 0);
    assert_eq!(align(4, 1), 4);
    assert_eq!(align(4, 4), 4);
    assert_eq!(align(4, 5), 8);
    assert_eq!(align(32, 100), 128);
}

#[test]
fn test_reader_typed_and_positioned_helpers() {
    let mut data = Vec::new();
    data.extend_from_slice(&0x1234u16.to_be_bytes());
    data.extend_from_slice(&(-2i16).to_be_bytes());
    data.extend_from_slice(&0x1122_3344_5566_7788u64.to_be_bytes());
    data.extend_from_slice(&1.5f32.to_be_bytes());
    data.extend_from_slice(&0x5678u16.to_le_bytes());
    data.extend_from_slice(&0x90ab_cdefu32.to_le_bytes());
    data.extend_from_slice(b"name\0");

    let mut reader = Reader::new(Cursor::new(data));
    assert_eq!(reader.read_u16().unwrap(), 0x1234);
    assert_eq!(reader.read_i16().unwrap(), -2);
    assert_eq!(reader.read_u64().unwrap(), 0x1122_3344_5566_7788);
    assert_eq!(f32::from_bits(reader.read_f32().unwrap()), 1.5);
    assert_eq!(reader.read_u16_le().unwrap(), 0x5678);
    assert_eq!(reader.read_u32_le().unwrap(), 0x90ab_cdef);
    let string_offset = reader.stream_position().unwrap();
    assert_eq!(reader.read_string0_at(string_offset).unwrap(), "name");
    assert_eq!(reader.stream_position().unwrap(), string_offset);
    assert_eq!(reader.read_string0().unwrap(), "name");
    assert_eq!(reader.into_inner().position(), string_offset + 5);
}

#[test]
fn test_reader_copy_and_exact_read_failures() {
    let mut reader = Reader::new(Cursor::new(b"abcdef".to_vec()));
    reader.seek(SeekFrom::Start(2)).unwrap();
    assert_eq!(reader.read_bytes_at(2, 0).unwrap(), b"ab");
    assert_eq!(reader.stream_position().unwrap(), 2);

    let mut appended = vec![b'x'];
    reader.read_into_vec(3, &mut appended).unwrap();
    assert_eq!(appended, b"xcde");
    let before = appended.clone();
    assert!(reader.read_into_vec(3, &mut appended).is_err());
    assert_eq!(appended, before);

    let mut copied = Vec::new();
    let mut reader = Reader::new(Cursor::new(b"copy".to_vec()));
    assert_eq!(reader.copy_to_writer(4, &mut copied).unwrap(), 4);
    assert_eq!(copied, b"copy");
    assert!(reader.copy_to_writer(1, &mut copied).is_err());
}

#[test]
fn test_decode_cri_string_encodings() {
    assert_eq!(decode_cri_string(b"utf8"), "utf8");
    assert_eq!(
        decode_cri_string(&[0x83, 0x65, 0x83, 0x58, 0x83, 0x67]),
        "テスト"
    );
    assert_eq!(decode_cri_string(&[0x41, 0, 0xff, 0xff]), "A\u{ffff}");
    assert_eq!(align(0, 7), 7);
}

#[test]
fn signed_and_wide_reads() {
    let mut data = Vec::new();
    data.push(0x80);
    data.extend_from_slice(&(-123_456i32).to_be_bytes());
    data.push(0xfe);
    let mut reader = Reader::new(Cursor::new(data));
    assert_eq!(reader.len(), 6);
    assert_eq!(reader.read_i8().unwrap(), -128);
    assert_eq!(reader.read_i32().unwrap(), -123_456);
    assert_eq!(reader.read_u8().unwrap(), 0xfe);
    assert_eq!(reader.read_u8(), Err(IoError::UnexpectedEof));
}

#[test]
fn a_failed_read_stops_at_the_end() {
    let mut reader = Reader::new(Cursor::new(vec![1, 2, 3]));
    reader.seek(SeekFrom::Start(1)).unwrap();
    assert_eq!(reader.read_u32(), Err(IoError::UnexpectedEof));
    assert_eq!(reader.stream_position().unwrap(), 3);
    reader.seek(SeekFrom::Start(9)).unwrap();
    assert_eq!(reader.read_bytes(0).unwrap(), Vec::<u8>::new());
    assert_eq!(reader.stream_position().unwrap(), 9);
}

#[test]
fn seeks_count_from_everywhere() {
    let mut cursor = Cursor::new(vec![0; 10]);
    assert_eq!(cursor.seek(SeekFrom::End(-4)), Ok(6));
    assert_eq!(cursor.seek(SeekFrom::Current(3)), Ok(9));
    assert_eq!(cursor.seek(SeekFrom::Current(-10)), Err(IoError::InvalidSeek));
    assert_eq!(cursor.position(), 9);
    assert_eq!(cursor.seek(SeekFrom::Start(u64::MAX)), Ok(u64::MAX));
    assert_eq!(cursor.seek(SeekFrom::Current(1)), Err(IoError::InvalidSeek));
    assert_eq!(cursor.into_inner().len(), 10);
}

#[test]
fn a_string_without_end_fails() {
    let mut reader = Reader::new(Cursor::new(b"open".to_vec()));
    assert_eq!(reader.read_string0(), Err(IoError::UnexpectedEof));
    assert_eq!(reader.stream_position().unwrap(), 4);
}

#[test]
fn decodings_are_tried_in_turn() {
    let text = |s: &str, bad: bool| (s.to_string(), bad);
    let pick = |a: bool, b: bool| pick_decoding(text("sjis", a), text("wide", b), "lossy".to_string());
    assert_eq!(pick(false, false), "sjis");
    assert_eq!(pick(true, false), "wide");
    assert_eq!(pick(true, true), "lossy");
    // A lone continuation byte is malformed in every encoding that is tried.
    assert_eq!(decode_cri_string(&[0x61, 0xff, 0x62]), "a\u{fffd}b");
}

#[test]
fn rounding_up_twice_is_rounding_up_once() {
    for offset in 0..100u32 {
        for alignment in [1u32, 3, 4, 32] {
            let once = align(alignment, offset);
            assert_eq!(once % alignment, 0);
            assert!(once >= offset && once < offset + alignment);
            assert_eq!(align(alignment, once), once);
        }
    }
}
