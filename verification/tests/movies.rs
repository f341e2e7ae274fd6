//! USM containers: masks come off, streams are gathered, errors are told.

use cridecoder::reader::{Cursor, IoError, Reader, SeekFrom};
use cridecoder::usm::builder::{StreamType, UsmBuilder};
use cridecoder::usm::extractor::{
    base_name_of, extract_filename, extract_usm_chunks, extract_usm_to_memory, output_file_names,
    parse_usm_header, stream_base_name, stream_masks,
};
use cridecoder::usm::mask::{
    apply_audio_mask, apply_video_mask, get_mask, mask_audio, mask_video,
};
use cridecoder::usm::metadata::{
    clean_text, metadata_number_to_i32, read_metadata, summarize_binary, MetadataError,
    MetadataValue, SectionData,
};
use cridecoder::usm::table::{
    get_detailed_utf_table, get_utf_table, UsmError, UtfRow, UtfValue, COLUMN_STORAGE_CONSTANT,
    COLUMN_TYPE_4BYTE, COLUMN_TYPE_DATA,
};

const KEY: u64 = 0x1234_5678_9abc_def0;

fn pattern(n: usize) -> Vec<u8> {
    (0..n).map(|i| (i * 31 + i / 7) as u8).collect()
}

#[test]
fn a_mask_has_known_bytes() {
    let ((head, tail), audio) = get_mask(KEY);
    assert_eq!(&head[..8], &[0xf0, 0xde, 0xbc, 0x66, 0x01, 0x45, 0x95, 0x0f]);
    for i in 0..32 {
        assert_eq!(tail[i], head[i] ^ 0xff);
        if i % 2 == 0 {
            assert_eq!(audio[i], tail[i]);
        } else {
            assert_eq!(audio[i], b"URUC"[i / 2 % 4]);
        }
    }
}

#[test]
fn the_video_mask_comes_off() {
    let (vmask, _) = get_mask(KEY);
    for n in [0usize, 0x23f, 0x240, 0x241, 0x400, 5000] {
        let plain = pattern(n);
        let masked = apply_video_mask(&plain, KEY);
        assert_eq!(masked.len(), n);
        assert_eq!(masked == plain, n < 0x240);
        let mut back = masked.clone();
        mask_video(&mut back, &vmask);
        assert_eq!(back, plain);
        assert_eq!(apply_video_mask(&back, KEY), masked);
    }
}

#[test]
fn the_audio_mask_undoes_itself() {
    let (_, amask) = get_mask(KEY);
    for n in [0usize, 0x140, 0x141, 3000] {
        let plain = pattern(n);
        let mut masked = apply_audio_mask(&plain, KEY);
        assert_eq!(masked == plain, n <= 0x140);
        mask_audio(&mut masked, &amask);
        assert_eq!(masked, plain);
    }
}

fn be32_at(d: &[u8], at: usize) -> u32 {
    u32::from_be_bytes(d[at..at + 4].try_into().unwrap())
}

#[test]
fn a_container_has_known_bytes() {
    let mut builder = UsmBuilder::new("ab").video(vec![7; 2500]);
    builder.add_audio(vec![9; 5]);
    let mut d = Vec::new();
    builder.build(&mut d).unwrap();
    // Directory: 28 bytes of chunk head and 71 bytes of table, padded.
    assert_eq!(be32_at(&d, 4), 28 + 71 - 8);
    assert_eq!(&d[28..32], b"@UTF");
    assert_eq!(be32_at(&d, 32), 63);
    assert_eq!(&d[28 + 41..28 + 59], b"CRIUSF_DIR_STREAM\0");
    assert_eq!(&d[28 + 68..28 + 71], b"ab\0");
    // Video header at the next multiple of 32.
    assert_eq!(&d[128..132], b"@SFV");
    assert_eq!(be32_at(&d, 132), 119);
    assert_eq!(&d[156..160], b"@UTF");
    assert_eq!(be32_at(&d, 156 + 47), 1920);
    assert_eq!(be32_at(&d, 156 + 51), 1080);
    assert_eq!(be32_at(&d, 156 + 55), 2);
    // Audio header, then the chunks.
    assert_eq!(&d[256..260], b"@SFA");
    assert_eq!(be32_at(&d, 260), 85);
    assert_eq!(&d[352..356], b"@SBV");
    assert_eq!(be32_at(&d, 356), 2500 + 0x18);
    assert_eq!(&d[380..384], &[7; 4]);
    let audio = (352 + 28 + 2500 + 31) / 32 * 32;
    assert_eq!(&d[audio..audio + 4], b"@SBA");
    assert_eq!(be32_at(&d, audio + 4), 5 + 0x18);
    let end = audio + 64;
    assert_eq!(&d[end..end + 4], b"@END");
    assert_eq!(&d[end + 28..end + 32], b"@END");
    assert_eq!(d.len(), end + 56);
    assert!(StreamType::Video != StreamType::Audio);
}

#[test]
fn chunks_join_to_their_streams() {
    let video = pattern(0x1_0000 * 2 + 5);
    let builder = UsmBuilder::new("v").video(video.clone()).encryption_key(KEY);
    let mut d = Vec::new();
    builder.build(&mut d).unwrap();
    let (vmask, _) = get_mask(KEY);
    let mut joined = Vec::new();
    let mut at = 0;
    while at + 4 <= d.len() {
        if &d[at..at + 4] == b"@SBV" {
            let len = be32_at(&d, at + 4) as usize - 0x18;
            assert_eq!(be32_at(&d, at + 12) as usize, joined.len());
            let mut part = d[at + 28..at + 28 + len].to_vec();
            mask_video(&mut part, &vmask);
            joined.extend_from_slice(&part);
            at = (at + 28 + len + 31) / 32 * 32;
        } else {
            at += 4;
        }
    }
    assert_eq!(joined, video);
}

/// A table of one row; each column has a name, a flag, and the bytes of its
/// cell. Constant cells stand in the schema.
fn table(name: &str, columns: &[(&str, u8, Vec<u8>)], blobs: &[u8]) -> Vec<u8> {
    let mut strings = name.as_bytes().to_vec();
    strings.push(0);
    let mut schema = Vec::new();
    let mut row = Vec::new();
    for (column, flag, cell) in columns {
        schema.push(*flag);
        schema.extend_from_slice(&(strings.len() as u32).to_be_bytes());
        strings.extend_from_slice(column.as_bytes());
        strings.push(0);
        if flag & 0xf0 == 0x50 {
            row.extend_from_slice(cell);
        } else {
            schema.extend_from_slice(cell);
        }
    }
    let rows = 24 + schema.len();
    let texts = rows + row.len();
    let data = texts + strings.len();
    let mut out = b"@UTF".to_vec();
    out.extend_from_slice(&((data + blobs.len()) as u32).to_be_bytes());
    out.extend_from_slice(&1u16.to_be_bytes());
    out.extend_from_slice(&(rows as u16).to_be_bytes());
    out.extend_from_slice(&(texts as u32).to_be_bytes());
    out.extend_from_slice(&(data as u32).to_be_bytes());
    out.extend_from_slice(&0u32.to_be_bytes());
    out.extend_from_slice(&(columns.len() as u16).to_be_bytes());
    out.extend_from_slice(&(row.len() as u16).to_be_bytes());
    out.extend_from_slice(&1u32.to_be_bytes());
    out.extend_from_slice(&schema);
    out.extend_from_slice(&row);
    out.extend_from_slice(&strings);
    out.extend_from_slice(blobs);
    out
}

fn number(v: u32) -> Vec<u8> {
    v.to_be_bytes().to_vec()
}

fn chunk(signature: &[u8; 4], payload: &[u8]) -> Vec<u8> {
    let mut out = signature.to_vec();
    out.extend_from_slice(&(24 + payload.len() as u32).to_be_bytes());
    out.extend_from_slice(&[0; 24]);
    out.extend_from_slice(payload);
    out
}

fn part(signature: &[u8; 4], payload: &[u8], kind: u8) -> Vec<u8> {
    let mut out = chunk(signature, payload);
    out[9] = 24;
    out[15] = kind;
    out
}

fn heads(audio_codec: Option<u32>) -> Vec<u8> {
    let plain = |n: &str, c: &str, v: u32| table(n, &[(c, 0x54, number(v))], &[]);
    let blob = [number(0), number(9)].concat();
    let directory = table(
        "DIR",
        &[("filename", 0x50 | COLUMN_TYPE_DATA, blob)],
        b"movie.usm",
    );
    let mut d = chunk(b"CRID", &directory);
    d.extend_from_slice(&chunk(b"@SFV", &plain("VIDEO", "mpeg_codec", 1)));
    if let Some(codec) = audio_codec {
        d.extend_from_slice(&chunk(b"@SFA", &plain("AUDIO", "audio_codec", codec)));
    }
    d.extend_from_slice(&chunk(b"@SFV", b"#HEADER END"));
    if audio_codec.is_some() {
        d.extend_from_slice(&chunk(b"@SFA", b"#HEADER END"));
    }
    d.extend_from_slice(&chunk(b"@SFV", &plain("SEEK", "skip", 0)));
    d.extend_from_slice(&chunk(b"@SFV", b"#METADATA END"));
    while d.len() % 4 != 0 {
        d.push(0);
    }
    d.extend_from_slice(&[0; 16]);
    d
}

#[test]
fn masked_streams_are_extracted_plain() {
    let video = pattern(0x900);
    let audio = pattern(0x500);
    for (codec, masked) in [(2u32, true), (4, false)] {
        let mut d = heads(Some(codec));
        d.extend_from_slice(&part(b"@SFV", &apply_video_mask(&video, KEY), 0));
        let sound = if masked { apply_audio_mask(&audio, KEY) } else { audio.clone() };
        d.extend_from_slice(&part(b"@SFA", &sound, 0));
        // Data of another type is never masked.
        d.extend_from_slice(&part(b"@SFV", &pattern(0x300), 1));
        let streams = extract_usm_to_memory(Cursor::new(d), b"", Some(KEY), true).unwrap();
        assert_eq!(streams.len(), 2);
        assert_eq!(streams[0].name, "movie");
        assert_eq!(streams[0].extension, "m2v");
        assert_eq!(streams[0].data, [video.clone(), pattern(0x300)].concat());
        assert_eq!(streams[1].extension, if masked { "adx" } else { "hca" });
        assert_eq!(streams[1].data, audio);
    }
}

#[test]
fn written_streams_are_the_gathered_ones() {
    let mut d = heads(Some(2));
    d.extend_from_slice(&part(b"@SFV", &[1; 20], 0));
    d.extend_from_slice(&part(b"@SFA", &[2; 21], 0));
    d.extend_from_slice(&part(b"@SFV", b"#CONTENTS END", 2));
    d.extend_from_slice(&part(b"@SFA", &[3; 22], 1));
    let gathered = extract_usm_to_memory(Cursor::new(d.clone()), b"", None, true).unwrap();
    let mut reader = Reader::new(Cursor::new(d.clone()));
    let (name, has_audio, mpeg, audio) = parse_usm_header(&mut reader, b"").unwrap();
    assert_eq!(name, b"movie.usm");
    assert!(has_audio);
    assert_eq!((mpeg, audio), (Some(1), Some(2)));
    let start = reader.stream_position().unwrap();
    assert_eq!(
        read_metadata(Cursor::new(d.clone()), b"").unwrap().stream_offset,
        start as i64
    );
    let mut video = Vec::new();
    let mut sound = Some(Vec::new());
    extract_usm_chunks(&mut reader, &mut video, &mut sound, None, None).unwrap();
    assert_eq!(video, gathered[0].data);
    assert_eq!(sound, Some(gathered[1].data.clone()));

    // A payload that is cut off: what is there is written, and the read fails.
    d.truncate(d.len() - 4);
    assert!(matches!(
        extract_usm_to_memory(Cursor::new(d.clone()), b"", None, true),
        Err(UsmError::Io(IoError::UnexpectedEof))
    ));
    let mut reader = Reader::new(Cursor::new(d.clone()));
    reader.seek(SeekFrom::Start(start)).unwrap();
    let mut video = Vec::new();
    let mut sound = Some(Vec::new());
    assert!(matches!(
        extract_usm_chunks(&mut reader, &mut video, &mut sound, None, None),
        Err(UsmError::Io(IoError::UnexpectedEof))
    ));
    assert_eq!(video, [1; 20]);
    assert_eq!(sound.unwrap(), [vec![2; 21], vec![3; 18]].concat());

    // Audio that is not wanted is not looked at.
    let quiet = extract_usm_to_memory(Cursor::new(d), b"", None, false).unwrap();
    assert_eq!(quiet.len(), 1);
}

#[test]
fn a_container_can_be_refused() {
    let good = heads(None);
    let read = |d: Vec<u8>| extract_usm_to_memory(Cursor::new(d), b"", None, true).map(|_| ());
    assert!(read(good.clone()).is_ok());
    assert!(matches!(
        read(vec![b'C', b'R']),
        Err(UsmError::Io(IoError::UnexpectedEof))
    ));
    assert!(matches!(
        read(vec![0; 64]),
        Err(UsmError::InvalidCridSignature)
    ));
    let place = |d: &[u8], what: &[u8]| d.windows(what.len()).position(|w| w == what).unwrap();
    let swap = |what: &[u8], with: &[u8]| {
        let mut d = good.clone();
        let at = place(&d, what);
        d[at..at + with.len()].copy_from_slice(with);
        d
    };
    assert!(matches!(
        read(swap(b"@UTF", b"@utf")),
        Err(UsmError::InvalidUtfSignature)
    ));
    assert!(matches!(
        read(swap(b"@SFV", b"@XXX")),
        Err(UsmError::ExpectedSignature(s)) if s == "@SFV"
    ));
    assert!(matches!(
        read(swap(b"#HEADER", b"#HEDAER")),
        Err(UsmError::ExpectedMarker(s)) if s == "#HEADER END"
    ));
    assert!(matches!(
        read(swap(b"#METADATA", b"#metadata")),
        Err(UsmError::ExpectedMarker(s)) if s == "#METADATA END"
    ));
    let mut kind = good.clone();
    kind[64] = 0x5c;
    assert!(matches!(
        read(kind.clone()),
        Err(UsmError::UnknownColumnType(0x0c))
    ));
    let metadata = |d: Vec<u8>| read_metadata(Cursor::new(d), b"").map(|_| ());
    assert!(matches!(
        metadata(kind),
        Err(MetadataError::Usm(UsmError::UnknownColumnType(0x0c)))
    ));
    assert!(matches!(
        metadata(good[..40].to_vec()),
        Err(MetadataError::Io(IoError::UnexpectedEof))
    ));
    assert!(matches!(
        metadata(swap(b"@SFV", b"@XXX")),
        Err(MetadataError::ExpectedSignature(s)) if s == "@SFV"
    ));
    assert!(matches!(
        metadata(swap(b"#HEADER", b"#HEDAER")),
        Err(MetadataError::ExpectedMarker(s)) if s == "#HEADER END"
    ));
}

#[test]
fn constants_stand_in_every_row() {
    let flag = COLUMN_STORAGE_CONSTANT | COLUMN_TYPE_4BYTE;
    let bytes = table(
        "T",
        &[("fixed", flag, number(77)), ("free", 0x54, number(8))],
        &[],
    );
    let rows = get_utf_table(&mut Reader::new(Cursor::new(bytes.clone()))).unwrap();
    assert_eq!(rows.len(), 1);
    assert!(matches!(rows[0].find("fixed"), Some(UtfValue::UInt(77))));
    assert!(matches!(rows[0].find("free"), Some(UtfValue::UInt(8))));
    assert!(rows[0].find("other").is_none());
    let named = get_detailed_utf_table(&mut Reader::new(Cursor::new(bytes))).unwrap();
    assert_eq!(named.name, "T");
    assert_eq!(named.rows.len(), 1);
}

#[test]
fn names_have_stems() {
    assert_eq!(base_name_of(b"movie.final.usm"), "movie.final");
    assert_eq!(base_name_of(b".hidden"), ".hidden");
    assert_eq!(base_name_of(b"bare"), "bare");
    assert_eq!(base_name_of(b".."), "..");
    assert_eq!(base_name_of(b"."), ".");
    assert_eq!(base_name_of(b""), "");
    assert_eq!(base_name_of(b"a/b/movie.usm"), "movie");
    assert_eq!(base_name_of(b"a/movie.d/./"), "movie");
    assert_eq!(base_name_of(b"/"), "/");
    assert_eq!(base_name_of(b"a/.."), "a/..");
    assert_eq!(base_name_of(&[0x83, 0x65, 0x2e, 0x61]), "テ");
    assert_eq!(stream_base_name(None, "whole.usm".to_string()), "whole.usm");
    assert_eq!(
        stream_base_name(Some("stem".to_string()), "whole.usm".to_string()),
        "stem"
    );
    assert_eq!(output_file_names("m", true, Some(9), Some(4)), vec!["m.ivf", "m.hca"]);
    assert_eq!(output_file_names("m", false, None, None), vec!["m.m2v"]);
}

#[test]
fn a_filename_can_be_missing() {
    let mut row = UtfRow::new();
    row.insert("filename".to_string(), UtfValue::UInt(3));
    assert_eq!(extract_filename(&vec![row], b"else"), b"else");
    assert_eq!(extract_filename(&Vec::new(), b"else"), b"else");
    let mut row = UtfRow::new();
    row.insert("filename".to_string(), UtfValue::String(b"old".to_vec()));
    row.insert("filename".to_string(), UtfValue::String(b"new".to_vec()));
    assert_eq!(extract_filename(&vec![row], b"else"), b"new");
}

#[test]
fn masks_follow_key_and_codec() {
    assert!(matches!(stream_masks(None, Some(2)), (None, None)));
    assert!(matches!(stream_masks(Some(KEY), Some(4)), (Some(_), None)));
    assert!(matches!(stream_masks(Some(KEY), None), (Some(_), None)));
    let (video, audio) = stream_masks(Some(KEY), Some(2));
    assert_eq!((video.unwrap(), audio.unwrap()), get_mask(KEY));
}

#[test]
fn floats_are_cut_to_whole_numbers() {
    let cut = |v: f32| metadata_number_to_i32(&MetadataValue::Float(v.to_bits())).unwrap();
    for v in [
        0.0f32, -0.0, 0.99, -0.99, 1.0, -1.5, 123456.75, -8388609.0, 2147483500.0, 3.0e9, -3.0e9,
        1.0e-30, f32::INFINITY, f32::NEG_INFINITY, f32::NAN, 16777217.0, -2147483648.0,
    ] {
        assert_eq!(cut(v), v as i32, "{v}");
    }
    assert_eq!(
        metadata_number_to_i32(&MetadataValue::UInt(0xffff_fffe)),
        Some(-2)
    );
    assert_eq!(
        metadata_number_to_i32(&MetadataValue::ULong(0x7_8000_0000)),
        Some(i32::MIN)
    );
}

#[test]
fn previews_show_the_first_bytes() {
    let bytes: Vec<u8> = (0..33).map(|i| i * 7).collect();
    let s = summarize_binary(&bytes);
    let want: String = bytes[..32].iter().map(|b| format!("{b:02x}")).collect();
    assert_eq!(s.preview_hex, Some(want));
    assert_eq!((s.size, s.truncated), (33, Some(true)));
    assert_eq!(clean_text(("ok".to_string(), true)), None);
    assert_eq!(clean_text(("o\u{7f}k".to_string(), false)), None);
    assert_eq!(clean_text(("ok".to_string(), false)), Some("ok".to_string()));
}

#[test]
fn a_frame_rate_needs_both_numbers() {
    let rate = |n: u32, d: u32| {
        let video = table(
            "VIDEO",
            &[("framerate_n", 0x54, number(n)), ("framerate_d", 0x54, number(d))],
            &[],
        );
        let plain = heads(None);
        let at = plain.windows(4).position(|w| w == b"@SFV").unwrap();
        let size = u32::from_be_bytes(plain[at + 4..at + 8].try_into().unwrap()) as usize;
        let mut bytes = plain[..at].to_vec();
        bytes.extend_from_slice(&chunk(b"@SFV", &video));
        bytes.extend_from_slice(&plain[at + 8 + size..]);
        // The end of the metadata is padded to a multiple of four.
        bytes.extend_from_slice(&[0; 4]);
        read_metadata(Cursor::new(bytes), b"").unwrap()
    };
    assert_eq!(rate(24, 1).video_frame_rate(), Some((24, 1)));
    assert_eq!(rate(24, 0).video_frame_rate(), None);
    let bare = read_metadata(Cursor::new(heads(None)), b"").unwrap();
    assert_eq!(bare.video_frame_rate(), None);
    assert!(matches!(
        &bare.sections[0].data,
        Some(SectionData::Table(t)) if t.table_name == "DIR" && t.row_count == 1
    ));
    let kinds: Vec<&str> = bare.sections.iter().map(|s| s.kind.as_str()).collect();
    assert_eq!(
        kinds,
        vec!["crid", "video_header", "video_header_end", "video_metadata", "video_metadata_end"]
    );
}

#[test]
fn a_key_leaves_other_audio_alone() {
    let audio = pattern(0x500);
    let mut d = heads(Some(4));
    d.extend_from_slice(&part(b"@SFV", &pattern(0x900), 0));
    d.extend_from_slice(&part(b"@SFA", &audio, 0));
    let read = |key: Option<u64>, export: bool| {
        extract_usm_to_memory(Cursor::new(d.clone()), b"", key, export).unwrap()
    };
    let plain = read(None, true);
    let keyed = read(Some(KEY), true);
    assert_eq!(plain[1].data, audio);
    assert_eq!(plain[1], keyed[1]);
    assert_eq!(plain[0].name, keyed[0].name);
    assert_ne!(plain[0].data, keyed[0].data);
    assert_eq!(read(Some(KEY), false).len(), 1);
}

#[test]
fn a_refused_container_leaves_the_reader_where_it_stopped() {
    let mut reader = Reader::new(Cursor::new(b"DIRCxxxxxxxx".to_vec()));
    assert!(parse_usm_header(&mut reader, b"").is_err());
    assert_eq!(reader.stream_position().unwrap(), 4);
    let mut reader = Reader::new(Cursor::new(b"CRIDxx".to_vec()));
    assert!(parse_usm_header(&mut reader, b"").is_err());
    assert_eq!(reader.stream_position().unwrap(), 6);
    let whole = heads(Some(4));
    let mut reader = Reader::new(Cursor::new(whole.clone()));
    parse_usm_header(&mut reader, b"").unwrap();
    assert_eq!(reader.stream_position().unwrap(), whole.len() as u64);
}

#[test]
fn a_chunk_without_room_for_its_frame_is_cut_off() {
    let mut d = heads(None);
    d.extend_from_slice(&part(b"@SFV", &[1; 20], 0));
    let mut odd = part(b"@SFV", &[2; 21], 0);
    odd[8..12].copy_from_slice(&[0xFF; 4]);
    d.extend_from_slice(&odd);
    d.extend_from_slice(&[3; 5]);
    assert!(matches!(
        extract_usm_to_memory(Cursor::new(d.clone()), b"", None, true),
        Err(UsmError::Io(IoError::UnexpectedEof))
    ));
    let (vmask, _) = get_mask(KEY);
    for (mask, rest) in [(None, [vec![2; 21], vec![3; 5]].concat()), (Some(&vmask), Vec::new())] {
        let mut reader = Reader::new(Cursor::new(d.clone()));
        parse_usm_header(&mut reader, b"").unwrap();
        let mut video = Vec::new();
        assert!(matches!(
            extract_usm_chunks(&mut reader, &mut video, &mut None, mask, None),
            Err(UsmError::Io(IoError::UnexpectedEof))
        ));
        assert_eq!(video, [vec![1; 20], rest].concat());
        assert_eq!(reader.stream_position().unwrap(), d.len() as u64);
    }
}
