//! Cue sheets, tables and archives: what is written is read back.

use cridecoder::acb::afs::{AfsArchive, AfsArchiveBuilder, AfsError};
use cridecoder::acb::builder::{BuilderError, ColumnDef, StringTable, UtfTableBuilder};
use cridecoder::acb::consts::{
    wave_type_extension, COLUMN_TYPE_4BYTE, COLUMN_TYPE_8BYTE, COLUMN_TYPE_DATA,
    COLUMN_TYPE_STRING, WAVEFORM_ENCODE_TYPE_ADX, WAVEFORM_ENCODE_TYPE_HCA,
};
use cridecoder::acb::cue_sheet::{AcbBuilder, TrackInput};
use cridecoder::acb::extractor::{
    external_awb_names, extract_acb_to_memory, extract_acb_unique_to_memory,
    extract_single_track_file, extract_tracks, is_acb, load_embedded_awb, track_extension, track_file_name, ExtractError, Track, TrackList,
};
use cridecoder::acb::sheet_model::HcaTrackInfo;
use cridecoder::acb::utf::{
    get_bytes_field, get_int_field, get_string_field, UtfError, UtfTable, Value, ValueMap,
};
use cridecoder::reader::{Cursor, IoError};

fn table_with_all_values() -> UtfTableBuilder {
    let mut builder = UtfTableBuilder::new("All");
    builder.add_column(ColumnDef::constant("U8", Value::U8(200)));
    builder.add_column(ColumnDef::constant("I8", Value::I8(-3)));
    builder.add_column(ColumnDef::constant("U16", Value::U16(60000)));
    builder.add_column(ColumnDef::constant("I16", Value::I16(-300)));
    builder.add_column(ColumnDef::constant("I32", Value::I32(-70000)));
    builder.add_column(ColumnDef::constant("F32", Value::F32(1.5f32.to_bits())));
    builder.add_column(ColumnDef::per_row("U32", COLUMN_TYPE_4BYTE));
    builder.add_column(ColumnDef::per_row("U64", COLUMN_TYPE_8BYTE));
    builder.add_column(ColumnDef::per_row("Text", COLUMN_TYPE_STRING));
    builder.add_column(ColumnDef::per_row("Blob", COLUMN_TYPE_DATA));
    for i in 0..3u32 {
        let mut row = ValueMap::default();
        row.insert("U32".to_string(), Value::U32(1000 + i));
        row.insert("U64".to_string(), Value::U64(0x1_0000_0000_0000 + i as u64));
        row.insert("Text".to_string(), Value::String(format!("row {i}")));
        row.insert("Blob".to_string(), Value::Data(vec![i as u8; 5 + i as usize]));
        builder.add_row(row);
    }
    builder
}

#[test]
fn a_built_table_is_read_back() {
    let mut bytes = Vec::new();
    table_with_all_values().build(&mut bytes).unwrap();
    assert_eq!(table_with_all_values().to_bytes(), Some(bytes.clone()));
    let table = UtfTable::new(Cursor::new(bytes)).unwrap();
    assert_eq!(table.name, "All");
    assert_eq!(table.rows.len(), 3);
    for (i, row) in table.rows.iter().enumerate() {
        assert_eq!(get_int_field(row, "U8"), 200);
        assert_eq!(get_int_field(row, "I8"), -3);
        assert_eq!(get_int_field(row, "U16"), 60000);
        assert_eq!(get_int_field(row, "I16"), -300);
        assert_eq!(get_int_field(row, "I32"), -70000);
        assert!(matches!(row.get("F32"), Some(Value::F32(v)) if f32::from_bits(*v) == 1.5));
        assert_eq!(get_int_field(row, "U32"), 1000 + i as i64);
        assert_eq!(get_int_field(row, "U64"), 0x1_0000_0000_0000 + i as i64);
        assert_eq!(get_string_field(row, "Text"), Some(format!("row {i}").as_str()));
        assert_eq!(get_bytes_field(row, "Blob"), Some(vec![i as u8; 5 + i].as_slice()));
        assert_eq!(get_int_field(row, "missing"), 0);
        assert_eq!(get_string_field(row, "U32"), None);
    }
}

#[test]
fn text_is_stored_as_shift_jis() {
    let mut strings = StringTable::new();
    assert_eq!(strings.add("テスト"), 0);
    assert_eq!(strings.data(), &[0x83, 0x65, 0x83, 0x58, 0x83, 0x67, 0]);
    assert_eq!(strings.add("a"), 7);
    assert_eq!(strings.len(), 9);

    let mut builder = UtfTableBuilder::new("名");
    builder.add_column(ColumnDef::constant("Name", Value::String("テスト".to_string())));
    builder.add_row(ValueMap::default());
    let mut bytes = Vec::new();
    builder.build(&mut bytes).unwrap();
    let table = UtfTable::new(Cursor::new(bytes)).unwrap();
    assert_eq!(table.name, "名");
    assert_eq!(get_string_field(&table.rows[0], "Name"), Some("テスト"));
}

#[test]
fn a_table_can_be_refused() {
    let mut good = Vec::new();
    table_with_all_values().build(&mut good).unwrap();
    let read = |d: Vec<u8>| UtfTable::new(Cursor::new(d)).map(|_| ());
    assert!(read(good.clone()).is_ok());
    assert!(matches!(
        read(vec![1, 2]),
        Err(UtfError::Io(IoError::UnexpectedEof))
    ));
    let mut magic = good.clone();
    magic[0] = b'!';
    assert!(matches!(read(magic), Err(UtfError::BadMagic(0x2155_5446))));
    let mut version = good.clone();
    version[9] = 2;
    assert!(matches!(read(version), Err(UtfError::UnsupportedVersion(2))));
    let mut columns = good.clone();
    columns[24] = 0;
    columns[25] = 0;
    assert!(matches!(read(columns), Err(UtfError::NoColumns)));
    let mut offsets = good.clone();
    offsets[12..16].copy_from_slice(&0x7fff_0000u32.to_be_bytes());
    assert!(matches!(read(offsets), Err(UtfError::OffsetOutOfBounds)));
    let mut kind = good.clone();
    kind[32] = 0x1f;
    assert!(read(kind).is_err());
}

#[test]
fn a_built_archive_is_read_back() {
    let mut builder = AfsArchiveBuilder::new().with_alignment(64).with_subkey(0xBEEF);
    builder.add_file(7, vec![7; 100]);
    builder.add_file(2, vec![2; 3]);
    builder.add_file(5, Vec::new());
    assert!(builder.fits_alone());
    let mut bytes = Vec::new();
    builder.build(&mut bytes).unwrap();
    // Ids are stored in order.
    assert_eq!(&bytes[16..22], &[2, 0, 5, 0, 7, 0]);
    let archive = AfsArchive::new(Cursor::new(bytes)).unwrap();
    assert_eq!(archive.alignment, 64);
    assert_eq!(archive.subkey_value(), 0xBEEF);
    assert_eq!(archive.file_data_for_cue_id(7).unwrap(), vec![7; 100]);
    assert_eq!(archive.file_data_for_cue_id(2).unwrap(), vec![2; 3]);
    assert_eq!(archive.file_data_for_cue_id(5).unwrap(), Vec::<u8>::new());
    assert!(matches!(
        archive.file_data_for_cue_id(3),
        Err(AfsError::NotFound(3))
    ));
}

#[test]
fn an_archive_can_be_refused() {
    let open = |d: Vec<u8>| AfsArchive::new(Cursor::new(d)).map(|_| ());
    assert!(matches!(
        open(b"AFS".to_vec()),
        Err(AfsError::Io(IoError::UnexpectedEof))
    ));
    assert!(matches!(open(vec![0; 32]), Err(AfsError::BadMagic(0))));
    let mut repeated = AfsArchiveBuilder::new();
    repeated.add_file(1, vec![1]);
    let mut bytes = Vec::new();
    repeated.build(&mut bytes).unwrap();
    bytes[5] = 9;
    assert!(matches!(open(bytes), Err(AfsError::UnsupportedFieldSize(9))));
}

fn track(name: &str, cue_id: i32, wav_id: i32) -> Track {
    Track {
        name: name.to_string(),
        cue_id,
        wav_id,
        enc_type: WAVEFORM_ENCODE_TYPE_HCA,
        is_stream: false,
        stream_awb_id: -1,
    }
}

fn sheet() -> Vec<u8> {
    let mut builder = AcbBuilder::new();
    builder.add_track(TrackInput::new("first", 0, b"HCA\0 first".to_vec()));
    builder.add_track(TrackInput::new("second", 1, b"HCA\0 second".to_vec()));
    let (acb, awb) = builder.assemble().unwrap().unwrap();
    let mut written = Vec::new();
    let mut external = Vec::new();
    builder.build(&mut written, Some(&mut external)).unwrap();
    assert_eq!(written, acb);
    assert!(external.is_empty() || external == awb);
    acb
}

#[test]
fn tracks_of_a_built_sheet_are_extracted() {
    let acb = sheet();
    assert!(is_acb(&acb));
    assert!(!is_acb(b"@UTF"));
    let mut table = UtfTable::new(Cursor::new(acb.clone())).unwrap();
    assert_eq!(table.rows.len(), 1);
    assert!(external_awb_names(&table.rows[0]).is_empty());
    let embedded = load_embedded_awb(&mut table.rows[0]);
    assert!(embedded.is_some());
    let list = TrackList { tracks: vec![track("first", 0, 0), track("second", 1, 1)] };
    let tracks = extract_tracks(&list, &embedded, &Vec::new()).unwrap();
    assert_eq!(tracks.len(), 2);
    assert_eq!(tracks[0].name, "first");
    assert_eq!(tracks[0].extension, "hca");
    assert_eq!(tracks[0].data, b"HCA\0 first");
    assert_eq!(tracks[1].data, b"HCA\0 second");
    assert_eq!(extract_acb_to_memory(Cursor::new(acb), &list, &Vec::new()).unwrap(), tracks);
}

#[test]
fn a_waveform_is_extracted_once() {
    let list = TrackList {
        tracks: vec![track("a", 10, 1), track("b", 11, 0), track("c", 12, 1)],
    };
    let waves = extract_acb_unique_to_memory(Cursor::new(sheet()), &list, &Vec::new()).unwrap();
    assert_eq!(waves.len(), 2);
    assert_eq!(waves[0].data, b"HCA\0 second");
    let cues: Vec<(&str, i32)> =
        waves[0].cues.iter().map(|c| (c.name.as_str(), c.cue_id)).collect();
    assert_eq!(cues, vec![("a", 10), ("c", 12)]);
    assert_eq!(waves[1].cues.len(), 1);
    let every: usize = waves.iter().map(|w| w.cues.len()).sum();
    assert_eq!(every, list.tracks.len());
}

#[test]
fn streamed_tracks_come_from_outside() {
    let mut builder = AfsArchiveBuilder::new().with_subkey(3);
    builder.add_file(4, vec![9, 9]);
    let mut bytes = Vec::new();
    builder.build(&mut bytes).unwrap();
    let outside = vec![AfsArchive::new(Cursor::new(bytes)).unwrap()];
    let mut streamed = track("streamed", 1, 4);
    streamed.is_stream = true;
    streamed.stream_awb_id = 0;
    let mut missing = streamed_copy(&streamed);
    missing.stream_awb_id = 5;
    let list = TrackList { tracks: vec![streamed, missing] };
    let tracks = extract_tracks(&list, &None, &outside).unwrap();
    assert_eq!(tracks.len(), 1);
    assert_eq!(tracks[0].data, vec![9, 9]);
    assert_eq!(tracks[0].subkey, 3);
    let lost = TrackList { tracks: vec![track("lost", 0, 0)] };
    assert!(extract_tracks(&lost, &None, &outside).unwrap().is_empty());
    assert!(matches!(
        extract_acb_to_memory(Cursor::new(vec![0; 64]), &lost, &outside),
        Err(ExtractError::Utf(UtfError::BadMagic(0)))
    ));
}

fn streamed_copy(t: &Track) -> Track {
    Track {
        name: t.name.clone(),
        cue_id: t.cue_id,
        wav_id: t.wav_id,
        enc_type: t.enc_type,
        is_stream: t.is_stream,
        stream_awb_id: t.stream_awb_id,
    }
}

#[test]
fn file_names_follow_the_encoding() {
    let mut t = track("song", 0, 0);
    assert_eq!(track_extension(&t), "hca");
    assert_eq!(track_file_name(&t), "song.hca");
    t.enc_type = WAVEFORM_ENCODE_TYPE_ADX;
    assert_eq!(track_file_name(&t), "song.adx");
    t.enc_type = -17;
    assert_eq!(track_extension(&t), "-17");
    assert_eq!(track_file_name(&t), "song.-17");
    assert_eq!(wave_type_extension(1234), "");
}

#[test]
fn a_sheet_can_be_refused() {
    let fails = |b: &AcbBuilder| b.assemble().err();
    assert!(matches!(fails(&AcbBuilder::new()), Some(BuilderError::NoTracks)));
    let mut twice = AcbBuilder::new();
    twice.add_track(TrackInput::new("a", 3, b"HCA\0".to_vec()));
    twice.add_track(TrackInput::new("b", 3, b"HCA\0".to_vec()));
    assert!(matches!(fails(&twice), Some(BuilderError::DuplicateCueId(3))));
    let mut large = AcbBuilder::new();
    large.add_track(TrackInput::new("a", 0x1_0000, b"HCA\0".to_vec()));
    assert!(matches!(fails(&large), Some(BuilderError::CueIdTooLarge(0x1_0000))));
}

fn music(hash: usize) -> AcbBuilder {
    AcbBuilder::new().music_acb(
        100,
        Some("_v".to_string()),
        1,
        44100,
        1000,
        0x0130_0500,
        vec![1; hash],
        vec![2; 16],
        "1.2.3".to_string(),
        1.0f32.to_bits(),
        3,
        4,
        "Category".to_string(),
        5,
        vec!["Bus".to_string()],
    )
}

#[test]
fn a_music_sheet_holds_its_options() {
    let mut builder = music(16);
    builder.add_track(TrackInput::new("tune", 100, b"HCA\0 tune".to_vec()));
    let (acb, _) = builder.assemble().unwrap().unwrap();
    let table = UtfTable::new(Cursor::new(acb)).unwrap();
    let row = &table.rows[0];
    assert_eq!(get_string_field(row, "Name"), Some("tune"));
    assert_eq!(get_string_field(row, "VersionString"), Some("1.2.3"));
    assert_eq!(get_bytes_field(row, "AcfMd5Hash"), Some(vec![1u8; 16].as_slice()));
    let mut none = music(16);
    assert!(matches!(none.assemble().err(), Some(BuilderError::NoTracks)));
    none.add_track(TrackInput::new("a", 1, b"HCA\0".to_vec()));
    none.add_track(TrackInput::new("b", 2, b"HCA\0".to_vec()));
    assert!(matches!(
        none.assemble().err(),
        Some(BuilderError::MusicAcbRequiresSingleTrack(2))
    ));
    let mut short = music(15);
    short.add_track(TrackInput::new("a", 1, b"HCA\0".to_vec()));
    assert!(matches!(
        short.assemble().err(),
        Some(BuilderError::InvalidFixedDataLength { field: "acf_md5_hash", expected: 16, actual: 15 })
    ));
}

#[test]
fn track_facts_come_from_the_header() {
    let info = HcaTrackInfo::from_hca_with_reference(b"no header", 100, 200);
    assert_eq!((info.channels, info.sampling_rate), (2, 44_100));
    assert_eq!((info.num_samples, info.length_ms), (100, 200));
    let usual = HcaTrackInfo::default();
    assert_eq!((usual.num_samples, usual.length_ms), (5_831_458, 132_232));

    // Two blocks at 48 kHz with no delay or padding.
    let mut data = b"HCA\0\x02\x00\x00\x60fmt\0".to_vec();
    data.push(1);
    data.extend_from_slice(&[0, 0xbb, 0x80]);
    data.extend_from_slice(&2u32.to_be_bytes());
    data.extend_from_slice(&[0; 4]);
    data.extend_from_slice(&[0; 64]);
    let info = HcaTrackInfo::from_hca_with_reference(&data, 100, 200);
    assert_eq!((info.channels, info.sampling_rate), (1, 48_000));
    assert_eq!(info.num_samples, 2048);
}

#[test]
fn archives_of_sheets_give_back_their_tracks() {
    let mut tune = music(16);
    tune.add_track(TrackInput::new("tune", 100, b"HCA\0 tune".to_vec()));
    let (acb, awb) = tune.assemble().unwrap().unwrap();
    assert!(awb.is_empty());
    let mut table = UtfTable::new(Cursor::new(acb)).unwrap();
    let archive = load_embedded_awb(&mut table.rows[0]).unwrap();
    // A music sheet files its track under the id of its archive.
    assert_eq!(archive.file_data_for_cue_id(1).unwrap(), b"HCA\0 tune");

    let mut streamed = AcbBuilder::new().streaming_awb(true);
    for id in [9u32, 4, 6] {
        streamed.add_track(TrackInput::new("t", id, vec![id as u8; 10 + id as usize]));
    }
    let (acb, awb) = streamed.assemble().unwrap().unwrap();
    let mut table = UtfTable::new(Cursor::new(acb)).unwrap();
    assert!(load_embedded_awb(&mut table.rows[0]).is_none());
    let archive = AfsArchive::new(Cursor::new(awb)).unwrap();
    for id in [9i32, 4, 6] {
        let data = vec![id as u8; 10 + id as usize];
        assert_eq!(archive.file_data_for_cue_id(id).unwrap(), data);
    }
}

#[test]
fn unique_cues_are_the_extracted_tracks() {
    let list = TrackList {
        tracks: vec![
            track("a", 10, 1),
            track("b", 11, 0),
            track("a", 10, 1),
            track("c", 12, 0),
        ],
    };
    let tracks = extract_acb_to_memory(Cursor::new(sheet()), &list, &Vec::new()).unwrap();
    let waves = extract_acb_unique_to_memory(Cursor::new(sheet()), &list, &Vec::new()).unwrap();
    let mut want: Vec<(String, i32)> =
        tracks.iter().map(|t| (t.name.clone(), t.cue_id)).collect();
    let mut got: Vec<(String, i32)> = Vec::new();
    for wave in &waves {
        assert!(!wave.cues.is_empty());
        for cue in &wave.cues {
            got.push((cue.name.clone(), cue.cue_id));
            assert!(tracks.iter().any(|t| t.name == cue.name
                && t.cue_id == cue.cue_id
                && t.data == wave.data
                && t.subkey == wave.subkey));
        }
    }
    want.sort();
    got.sort();
    assert_eq!(got, want);
    assert_eq!(waves[0].cues[0].name, "a");
    assert_eq!(waves[1].cues[0].name, "b");
}

#[test]
fn files_hold_the_extracted_tracks() {
    let mut table = UtfTable::new(Cursor::new(sheet())).unwrap();
    let embedded = load_embedded_awb(&mut table.rows[0]);
    let list = TrackList { tracks: vec![track("first", 7, 0), track("second", 8, 1)] };
    let tracks = extract_tracks(&list, &embedded, &Vec::new()).unwrap();
    for (t, want) in list.tracks.iter().zip(&tracks) {
        let (file, data) = extract_single_track_file(t, &embedded, &Vec::new()).unwrap().unwrap();
        assert_eq!(file.path, format!("{}.{}", want.name, want.extension));
        assert_eq!(file.name, want.name);
        assert_eq!(file.cue_id, want.cue_id);
        assert_eq!(file.subkey, want.subkey);
        assert_eq!(data, want.data);
    }
    assert!(extract_single_track_file(&list.tracks[0], &None, &Vec::new()).unwrap().is_none());
    assert!(matches!(
        extract_single_track_file(&track("none", 0, 99), &embedded, &Vec::new()),
        Err(ExtractError::Afs(_))
    ));
}

#[test]
fn copies_hold_the_same() {
    let mut bytes = Vec::new();
    table_with_all_values().build(&mut bytes).unwrap();
    let table = UtfTable::new(Cursor::new(bytes)).unwrap();
    let copy = table.clone();
    assert_eq!(copy.name, table.name);
    assert_eq!(copy.dynamic_keys, table.dynamic_keys);
    assert_eq!(copy.rows.len(), table.rows.len());
    assert_eq!(
        get_string_field(&copy.rows[0], "Text"),
        get_string_field(&table.rows[0], "Text")
    );
    let column = ColumnDef::constant("Name", Value::U8(3)).clone();
    assert_eq!(column.name, "Name");
    assert!(matches!(column.constant_value, Some(Value::U8(3))));
    let input = TrackInput::new("t", 4, vec![1, 2]).clone();
    assert_eq!((input.name.as_str(), input.cue_id, input.data), ("t", 4, vec![1, 2]));
}
