//! USM containers: masks, builder, extraction and metadata.

use cridecoder::reader::{Cursor, Reader, SeekFrom};
use cridecoder::usm::builder::{UsmBuilder, UsmBuilderError};
use cridecoder::usm::extractor::{
    audio_ext, extract_usm_to_memory, utf_first_u32, video_ext,
};
use cridecoder::usm::header::{read_signature_at, seek_and_check_signature};
use cridecoder::usm::mask::{get_mask, mask_audio, mask_video, AudioMask, VideoMask};
use cridecoder::usm::metadata::{
    decode_text_bytes, extract_container_filename, is_mostly_text, metadata_number_to_i32,
    normalize_metadata_value, read_metadata, stringify_bytes, stringify_utf_value,
    summarize_binary, MetadataError, MetadataValue, SectionData,
};
use cridecoder::usm::table::{
    align_stream, read_column_data, read_cstring, UsmError, UtfRow, UtfTable, UtfValue,
    COLUMN_TYPE_1BYTE, COLUMN_TYPE_1BYTE2, COLUMN_TYPE_2BYTE, COLUMN_TYPE_2BYTE2,
    COLUMN_TYPE_4BYTE, COLUMN_TYPE_4BYTE2, COLUMN_TYPE_8BYTE, COLUMN_TYPE_FLOAT,
    COLUMN_TYPE_STRING,
};

#[test]
fn test_usm_builder_basic() {
    let video_data = vec![0u8; 1000];

    let builder = UsmBuilder::new("test_video").video(video_data);

    let mut data: Vec<u8> = Vec::new();
    builder.build(&mut data).unwrap();

    assert_eq!(&data[0..4], b"CRID");
}

#[test]
fn test_mask_generation() {
    let key: u64 = 0x12345678_9ABCDEF0;
    let ((head, tail), amask) = get_mask(key);
    let vmask = [head, tail];

    assert_eq!(vmask.len(), 2);
    assert_eq!(vmask[0].len(), 0x20);
    assert_eq!(vmask[1].len(), 0x20);
    assert_eq!(amask.len(), 0x20);
}

#[test]
fn test_builder_audio_encryption_and_multiple_chunks() {
    let mut missing_video: Vec<u8> = Vec::new();
    assert!(matches!(
        UsmBuilder::new("missing.usm").build(&mut missing_video),
        Err(UsmBuilderError::NoVideoStream)
    ));

    let video = vec![0x56; 0x1_0020];
    let audio = vec![0x41; 0x1_0040];
    let mut builder = UsmBuilder::new("encrypted.usm")
        .video(video)
        .encryption_key(0x1234_5678_9abc_def0);
    builder.add_audio(audio);

    let mut data: Vec<u8> = Vec::new();
    builder.build(&mut data).unwrap();

    assert_eq!(&data[..4], b"CRID");
    assert!(data.windows(4).any(|window| window == b"@SFA"));
    assert_eq!(
        data.windows(4).filter(|window| *window == b"@SBV").count(),
        2
    );
    assert_eq!(
        data.windows(4).filter(|window| *window == b"@SBA").count(),
        2
    );
    assert_eq!(
        data.windows(4).filter(|window| *window == b"@END").count(),
        2
    );
}

#[test]
fn test_codec_extension_mapping() {
    // Audio: 2=ADX, 4=HCA; default adx.
    assert_eq!(audio_ext(Some(2)), "adx");
    assert_eq!(audio_ext(Some(4)), "hca");
    assert_eq!(audio_ext(None), "adx");
    // Video: 9=VP9 -> ivf; default m2v.
    assert_eq!(video_ext(Some(9)), "ivf");
    assert_eq!(video_ext(Some(1)), "m2v");
    assert_eq!(video_ext(None), "m2v");
}

#[test]
fn test_utf_first_u32_reads_codec_column() {
    let mut row = UtfRow::new();
    row.insert("audio_codec".to_string(), UtfValue::Byte(4));
    row.insert("mpeg_codec".to_string(), UtfValue::UInt(9));
    let table: UtfTable = vec![row];
    assert_eq!(utf_first_u32(&table, "audio_codec"), Some(4));
    assert_eq!(utf_first_u32(&table, "mpeg_codec"), Some(9));
    assert_eq!(utf_first_u32(&table, "missing"), None);

    // Non-integer columns and empty tables yield None.
    let mut row2 = UtfRow::new();
    row2.insert("name".to_string(), UtfValue::String(b"x".to_vec()));
    assert_eq!(utf_first_u32(&vec![row2], "name"), None);
    assert_eq!(utf_first_u32(&Vec::new(), "audio_codec"), None);
}

// A synthetic key that exercises every mask path.
const TEST_KEY: u64 = 0x0011_2233_4455_6677;

fn lcg_fill(n: usize) -> Vec<u8> {
    let mut v = Vec::with_capacity(n);
    let mut s: u64 = 0x243f6a8885a308d3;
    for _ in 0..n {
        s = s
            .wrapping_mul(6364136223846793005)
            .wrapping_add(1442695040888963407);
        v.push((s >> 33) as u8);
    }
    v
}

fn fnv(data: &[u8]) -> u64 {
    let mut h: u64 = 0xcbf29ce484222325;
    for &b in data {
        h = (h ^ b as u64).wrapping_mul(0x100000001b3);
    }
    h
}

// The masks, byte by byte.
fn ref_video(content: &[u8], vmask: &VideoMask) -> Vec<u8> {
    let mut result = content.to_vec();
    let size = result.len().saturating_sub(0x40);
    let base = 0x40;
    if size >= 0x200 {
        let mut mask = vmask.1;
        for i in 0x100..size {
            result[base + i] ^= mask[i & 0x1F];
            mask[i & 0x1F] = result[base + i] ^ vmask.1[i & 0x1F];
        }
        mask.copy_from_slice(&vmask.0);
        for i in 0..0x100 {
            mask[i & 0x1F] ^= result[0x100 + base + i];
            result[base + i] ^= mask[i & 0x1F];
        }
    }
    result
}

fn ref_audio(content: &[u8], amask: &AudioMask) -> Vec<u8> {
    let mut result = content.to_vec();
    let size = result.len().saturating_sub(0x140);
    let base = 0x140;
    for i in 0..size {
        result[base + i] ^= amask[i & 0x1F];
    }
    result
}

#[test]
fn mask_matches_reference() {
    let (vmask, amask) = get_mask(TEST_KEY);
    let sizes = [
        0,
        1,
        0x3f,
        0x40,
        0x41,
        0x13f,
        0x140,
        0x141,
        0x1ff,
        0x200,
        0x23e,
        0x23f,
        0x240,
        0x241,
        0x25f,
        0x260,
        0x261,
        0x300,
        1000,
        4096,
        4097,
        0x40 + 0x200,
        0x40 + 0x201,
        0x40 + 0x21f,
        0x40 + 0x220,
        100_000,
        100_003,
    ];
    for &n in &sizes {
        let content = lcg_fill(n);
        let mut v = content.clone();
        mask_video(&mut v, &vmask);
        assert_eq!(
            v,
            ref_video(&content, &vmask),
            "mask_video mismatch at size {n}"
        );
        let mut a = content.clone();
        mask_audio(&mut a, &amask);
        assert_eq!(
            a,
            ref_audio(&content, &amask),
            "mask_audio mismatch at size {n}"
        );
    }
}

#[test]
fn mask_golden() {
    let (vmask, amask) = get_mask(TEST_KEY);
    let content = lcg_fill(0x40 + 1_000_000); // > 0x200 so both passes run
    let mut v = content.clone();
    mask_video(&mut v, &vmask);
    let mut a = content.clone();
    mask_audio(&mut a, &amask);
    let (cv, ca) = (fnv(&v), fnv(&a));
    assert_eq!(cv, 0x01cb2bb02df7f48c, "mask_video output changed");
    assert_eq!(ca, 0x3b4a709ace2862ed, "mask_audio output changed");
}

enum TestField<'a> {
    String(&'a str, &'a str),
    UInt(&'a str, u32),
}

fn push_u16(bytes: &mut Vec<u8>, value: u16) {
    bytes.extend_from_slice(&value.to_be_bytes());
}

fn push_u32(bytes: &mut Vec<u8>, value: u32) {
    bytes.extend_from_slice(&value.to_be_bytes());
}

fn push_string(strings: &mut Vec<u8>, value: &str) -> u32 {
    let offset = strings.len() as u32;
    strings.extend_from_slice(value.as_bytes());
    strings.push(0);
    offset
}

fn make_utf(table_name: &str, fields: &[TestField<'_>]) -> Vec<u8> {
    let mut strings = Vec::new();
    let table_name_offset = push_string(&mut strings, table_name);
    let mut names = Vec::with_capacity(fields.len());
    let mut string_values = Vec::with_capacity(fields.len());

    for field in fields {
        let (name, value) = match field {
            TestField::String(name, value) => (*name, Some(*value)),
            TestField::UInt(name, _) => (*name, None),
        };
        names.push(push_string(&mut strings, name));
        string_values.push(value.map(|value| push_string(&mut strings, value)));
    }

    let mut schema = Vec::with_capacity(fields.len() * 5);
    let mut row = Vec::with_capacity(fields.len() * 4);
    for ((field, name_offset), string_offset) in fields.iter().zip(names).zip(string_values) {
        match field {
            TestField::String(_, _) => {
                schema.push(0x50 | COLUMN_TYPE_STRING);
                push_u32(&mut row, string_offset.expect("string value offset"));
            }
            TestField::UInt(_, value) => {
                schema.push(0x50 | COLUMN_TYPE_4BYTE);
                push_u32(&mut row, *value);
            }
        }
        push_u32(&mut schema, name_offset);
    }

    let row_offset = 24 + schema.len();
    let string_table_offset = row_offset + row.len();
    let data_offset = string_table_offset + strings.len();
    let table_size = 24 + schema.len() + row.len() + strings.len();

    let mut table = Vec::with_capacity(8 + table_size);
    table.extend_from_slice(b"@UTF");
    push_u32(&mut table, table_size as u32);
    push_u16(&mut table, 1);
    push_u16(&mut table, row_offset as u16);
    push_u32(&mut table, string_table_offset as u32);
    push_u32(&mut table, data_offset as u32);
    push_u32(&mut table, table_name_offset);
    push_u16(&mut table, fields.len() as u16);
    push_u16(&mut table, row.len() as u16);
    push_u32(&mut table, 1);
    table.extend_from_slice(&schema);
    table.extend_from_slice(&row);
    table.extend_from_slice(&strings);
    table
}

fn make_chunk(signature: &[u8; 4], payload: &[u8]) -> Vec<u8> {
    let mut chunk = Vec::with_capacity(32 + payload.len());
    chunk.extend_from_slice(signature);
    push_u32(&mut chunk, (24 + payload.len()) as u32);
    chunk.extend_from_slice(&[0; 24]);
    chunk.extend_from_slice(payload);
    while chunk.len() % 4 != 0 {
        chunk.push(0);
    }
    let block_size = (chunk.len() - 8) as u32;
    chunk[4..8].copy_from_slice(&block_size.to_be_bytes());
    chunk
}

fn make_metadata_end_chunk() -> Vec<u8> {
    let mut chunk = make_chunk(b"@SFV", b"#METADATA END");
    chunk.extend_from_slice(&[0; 16]);
    let block_size = (chunk.len() - 8) as u32;
    chunk[4..8].copy_from_slice(&block_size.to_be_bytes());
    chunk
}

fn make_stream_chunk(signature: &[u8; 4], payload: &[u8], data_type: u8) -> Vec<u8> {
    let mut chunk = Vec::with_capacity(32 + payload.len());
    chunk.extend_from_slice(signature);
    push_u32(&mut chunk, (24 + payload.len()) as u32);
    push_u16(&mut chunk, 24);
    push_u16(&mut chunk, 0);
    chunk.extend_from_slice(&[0; 3]);
    chunk.push(data_type);
    chunk.extend_from_slice(&[0; 16]);
    chunk.extend_from_slice(payload);
    chunk
}

fn make_test_usm(has_audio: bool) -> Vec<u8> {
    let crid = make_utf(
        "CRIUSF_DIR_STREAM",
        &[TestField::String("filename", "sample.usm")],
    );
    let video_header = make_utf(
        "VIDEO_HDRINFO",
        &[
            TestField::UInt("framerate_n", 30000),
            TestField::UInt("framerate_d", 1001),
            TestField::UInt("mpeg_codec", 9),
        ],
    );
    let audio_header = make_utf("AUDIO_HDRINFO", &[TestField::UInt("audio_codec", 2)]);
    let video_metadata = make_utf("VIDEO_SEEKINFO", &[TestField::UInt("num_skip", 0)]);

    let mut usm = make_chunk(b"CRID", &crid);
    usm.extend_from_slice(&make_chunk(b"@SFV", &video_header));
    if has_audio {
        usm.extend_from_slice(&make_chunk(b"@SFA", &audio_header));
    }
    usm.extend_from_slice(&make_chunk(b"@SFV", b"#HEADER END"));
    if has_audio {
        usm.extend_from_slice(&make_chunk(b"@SFA", b"#HEADER END"));
    }
    usm.extend_from_slice(&make_chunk(b"@SFV", &video_metadata));
    usm.extend_from_slice(&make_metadata_end_chunk());

    // A contents marker exercises the skip path without ending the other
    // stream, as each stream of a container ends on its own.
    usm.extend_from_slice(&make_stream_chunk(b"@SFV", b"#CONTENTS END", 1));
    usm.extend_from_slice(&make_stream_chunk(b"@SFV", &[0x56; 0x300], 0));
    if has_audio {
        usm.extend_from_slice(&make_stream_chunk(b"@SFA", &[0x41; 0x180], 0));
    }
    usm.extend_from_slice(&make_stream_chunk(b"JUNK", &[0; 16], 1));
    usm
}

#[test]
fn reads_complete_metadata_with_and_without_audio() {
    let metadata = read_metadata(Cursor::new(make_test_usm(true)), b"fallback.usm").unwrap();
    assert_eq!(metadata.container_filename.as_deref(), Some("sample.usm"));
    assert!(metadata.has_audio);
    assert_eq!(metadata.video_frame_rate(), Some((30000, 1001)));
    assert_eq!(metadata.sections.len(), 7);
    assert_eq!(metadata.sections[1].kind, "video_header");
    assert!(metadata.stream_offset > 0);
    assert!(matches!(
        &metadata.sections[3].data,
        Some(SectionData::Marker(m)) if m == "#HEADER END"
    ));

    let metadata = read_metadata(Cursor::new(make_test_usm(false)), b"fallback.usm").unwrap();
    assert!(!metadata.has_audio);
    assert_eq!(metadata.sections.len(), 5);
}

#[test]
fn reads_exports_and_extracts_synthetic_usm() {
    let usm = make_test_usm(true);
    let streams = extract_usm_to_memory(Cursor::new(usm.clone()), b"fallback.usm", None, true)
        .expect("memory extraction");
    assert_eq!(streams.len(), 2);
    assert_eq!(
        (streams[0].name.as_str(), streams[0].extension.as_str()),
        ("sample", "ivf")
    );
    assert_eq!(streams[0].data, vec![0x56; 0x300]);
    assert_eq!(streams[1].extension, "adx");
    assert_eq!(streams[1].data, vec![0x41; 0x180]);

    // The synthetic data is not masked beforehand, so only its shape is known.
    let masked = extract_usm_to_memory(
        Cursor::new(usm.clone()),
        b"fallback.usm",
        Some(0x0011_2233_4455_6677),
        true,
    )
    .unwrap();
    assert_eq!(masked[0].data.len(), 0x300);
    assert_eq!(masked[1].data.len(), 0x180);
    assert_ne!(masked[0].data, streams[0].data);
    assert_ne!(masked[1].data, streams[1].data);

    let silent = extract_usm_to_memory(Cursor::new(usm), b"fallback.usm", None, false).unwrap();
    assert_eq!(silent.len(), 1);
}

#[test]
fn normalizes_utf_values_and_binary_data() {
    let values = [
        UtfValue::Byte(1),
        UtfValue::SByte(-2),
        UtfValue::UShort(3),
        UtfValue::Short(-4),
        UtfValue::UInt(5),
        UtfValue::Int(-6),
        UtfValue::ULong(7),
        UtfValue::Float(8.5f32.to_bits()),
        UtfValue::String(b"text".to_vec()),
        UtfValue::Data(b"data".to_vec()),
        UtfValue::Data(vec![0xff, 0x00, 0xfe]),
    ];
    let normalized: Vec<_> = values.iter().map(normalize_metadata_value).collect();
    assert!(matches!(normalized[0], MetadataValue::Byte(1)));
    assert!(matches!(normalized[1], MetadataValue::SByte(-2)));
    assert!(matches!(normalized[2], MetadataValue::UShort(3)));
    assert!(matches!(normalized[3], MetadataValue::Short(-4)));
    assert!(matches!(normalized[4], MetadataValue::UInt(5)));
    assert!(matches!(normalized[5], MetadataValue::Int(-6)));
    assert!(matches!(normalized[6], MetadataValue::ULong(7)));
    assert!(matches!(normalized[7], MetadataValue::Float(v) if f32::from_bits(v) == 8.5));
    assert!(matches!(&normalized[8], MetadataValue::String(v) if v == "text"));
    assert!(matches!(&normalized[9], MetadataValue::String(v) if v == "data"));
    assert!(matches!(&normalized[10], MetadataValue::Binary(v) if v.size == 3));

    let empty = summarize_binary(&[]);
    assert_eq!(
        (empty.size, empty.preview_hex, empty.truncated),
        (0, None, None)
    );
    let short = summarize_binary(&[1, 2, 3]);
    assert_eq!(short.preview_hex.as_deref(), Some("010203"));
    assert_eq!(short.truncated, None);
    let long = summarize_binary(&[0xab; 40]);
    assert_eq!(long.preview_hex.as_deref().map(str::len), Some(64));
    assert_eq!(long.truncated, Some(true));

    assert_eq!(decode_text_bytes(b""), Some(String::new()));
    assert_eq!(decode_text_bytes(b"hello"), Some("hello".to_string()));
    assert_eq!(
        decode_text_bytes(&[0x83, 0x65, 0x83, 0x58, 0x83, 0x67]),
        Some("テスト".to_string())
    );
    assert_eq!(decode_text_bytes(&[0xff, 0x00]), None);
    assert!(!is_mostly_text("ok\u{0001}"));
    assert!(!is_mostly_text("bad\u{fffd}"));
    assert!(is_mostly_text("line\n"));
}

#[test]
fn handles_filename_fallbacks_numbers_and_errors() {
    let mut row = UtfRow::new();
    row.insert(
        "filename".to_string(),
        UtfValue::Data(b"from-data.usm".to_vec()),
    );
    assert_eq!(
        extract_container_filename(&vec![row], b"fallback.usm"),
        "from-data.usm"
    );
    assert_eq!(
        extract_container_filename(&Vec::new(), b"fallback.usm"),
        "fallback.usm"
    );
    assert_eq!(stringify_bytes(&[0xff, 0x00]), "ff00");
    assert!(stringify_utf_value(&UtfValue::UInt(1)).is_none());

    let numbers = [
        MetadataValue::Byte(1),
        MetadataValue::SByte(-2),
        MetadataValue::UShort(3),
        MetadataValue::Short(-4),
        MetadataValue::UInt(5),
        MetadataValue::Int(-6),
        MetadataValue::ULong(7),
        MetadataValue::Float(8.9f32.to_bits()),
    ];
    let converted: Vec<_> = numbers.iter().map(metadata_number_to_i32).collect();
    assert_eq!(
        converted,
        vec![
            Some(1),
            Some(-2),
            Some(3),
            Some(-4),
            Some(5),
            Some(-6),
            Some(7),
            Some(8)
        ]
    );
    assert_eq!(
        metadata_number_to_i32(&MetadataValue::String("x".into())),
        None
    );

    assert!(matches!(
        read_metadata(Cursor::new(b"NOPE".to_vec()), b"fallback"),
        Err(MetadataError::InvalidCridSignature)
    ));
    let mut invalid_utf = make_test_usm(false);
    invalid_utf[32..36].copy_from_slice(b"NOPE");
    assert!(matches!(
        read_metadata(Cursor::new(invalid_utf), b"fallback"),
        Err(MetadataError::InvalidUtfSignature)
    ));
}

#[test]
fn reads_column_types_and_alignment_helpers() {
    let mut bytes = Vec::new();
    bytes.push(0xfe);
    bytes.push((-2i8) as u8);
    push_u16(&mut bytes, 0x1234);
    bytes.extend_from_slice(&(-123i16).to_be_bytes());
    push_u32(&mut bytes, 0x1234_5678);
    bytes.extend_from_slice(&(-12345i32).to_be_bytes());
    bytes.extend_from_slice(&0x1234_5678_9abc_def0u64.to_be_bytes());
    bytes.extend_from_slice(&1.5f32.to_be_bytes());
    let mut reader = Reader::new(Cursor::new(bytes));
    assert!(matches!(
        read_column_data(&mut reader, COLUMN_TYPE_1BYTE, 0, 0).unwrap(),
        UtfValue::Byte(0xfe)
    ));
    assert!(matches!(
        read_column_data(&mut reader, COLUMN_TYPE_1BYTE2, 0, 0).unwrap(),
        UtfValue::SByte(-2)
    ));
    assert!(matches!(
        read_column_data(&mut reader, COLUMN_TYPE_2BYTE, 0, 0).unwrap(),
        UtfValue::UShort(0x1234)
    ));
    assert!(matches!(
        read_column_data(&mut reader, COLUMN_TYPE_2BYTE2, 0, 0).unwrap(),
        UtfValue::Short(-123)
    ));
    assert!(matches!(
        read_column_data(&mut reader, COLUMN_TYPE_4BYTE, 0, 0).unwrap(),
        UtfValue::UInt(0x1234_5678)
    ));
    assert!(matches!(
        read_column_data(&mut reader, COLUMN_TYPE_4BYTE2, 0, 0).unwrap(),
        UtfValue::Int(-12345)
    ));
    assert!(matches!(
        read_column_data(&mut reader, COLUMN_TYPE_8BYTE, 0, 0).unwrap(),
        UtfValue::ULong(0x1234_5678_9abc_def0)
    ));
    assert!(
        matches!(read_column_data(&mut reader, COLUMN_TYPE_FLOAT, 0, 0).unwrap(), UtfValue::Float(v) if f32::from_bits(v) == 1.5)
    );
    assert!(matches!(
        read_column_data(&mut reader, 0x0f, 0, 0),
        Err(UsmError::UnknownColumnType(0x0f))
    ));

    let mut cstring = Reader::new(Cursor::new(b"abc\0tail".to_vec()));
    assert_eq!(read_cstring(&mut cstring).unwrap(), b"abc");
    let mut aligned = Reader::new(Cursor::new(vec![0; 16]));
    aligned.seek(SeekFrom::Start(3)).unwrap();
    assert_eq!(align_stream(&mut aligned, 4).unwrap(), 4);
    assert_eq!(align_stream(&mut aligned, 4).unwrap(), 4);
    assert_eq!(
        read_signature_at(&mut Reader::new(Cursor::new(b"xxxx@SFV".to_vec())), 4).unwrap(),
        "@SFV"
    );
    assert!(seek_and_check_signature(
        &mut Reader::new(Cursor::new(b"NOPE".to_vec())),
        0,
        "@SFV"
    )
    .is_err());
}
