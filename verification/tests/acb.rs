//! `@UTF` tables, AFS2 archives and cue sheets.

use cridecoder::acb::afs::{AfsArchive, AfsArchiveBuilder};
use cridecoder::acb::builder::{ColumnDef, StringTable, UtfTableBuilder};
use cridecoder::acb::consts::COLUMN_TYPE_STRING;
use cridecoder::acb::utf::{UtfTable, Value, ValueMap};
use cridecoder::reader::Cursor;

#[test]
fn test_string_table() {
    let mut st = StringTable::new();
    let off1 = st.add("hello");
    let off2 = st.add("world");
    let off3 = st.add("hello"); // Duplicate

    assert_eq!(off1, 0);
    assert_eq!(off3, off1); // Should reuse
    assert!(off2 > off1);
}

#[test]
fn test_afs_builder() {
    let mut builder = AfsArchiveBuilder::new();
    builder.add_file(0, vec![1, 2, 3, 4]);
    builder.add_file(1, vec![5, 6, 7, 8, 9]);

    let mut data: Vec<u8> = Vec::new();
    builder.build(&mut data).unwrap();

    assert_eq!(&data[0..4], b"AFS2");
    assert_eq!(&data[4..8], &[0x01, 0x02, 0x02, 0x00]);
    assert_eq!(&data[12..14], &32u16.to_le_bytes());
    assert_eq!(&data[14..16], &0u16.to_le_bytes());

    let archive = AfsArchive::new(Cursor::new(data)).unwrap();
    assert_eq!(archive.alignment, 32);
    assert_eq!(archive.subkey, 0);
    assert_eq!(
        archive.file_data_for_cue_id(1).unwrap(),
        vec![5, 6, 7, 8, 9]
    );
}

#[test]
fn test_utf_table_builder() {
    let mut builder = UtfTableBuilder::new("TestTable");
    builder.add_column(ColumnDef::constant("Version", Value::U32(1)));
    builder.add_column(ColumnDef::per_row("Name", COLUMN_TYPE_STRING));

    let mut row = ValueMap::default();
    row.insert("Name".to_string(), Value::String("test".to_string()));
    builder.add_row(row);

    let mut data: Vec<u8> = Vec::new();
    builder.build(&mut data).unwrap();

    assert_eq!(&data[0..4], b"@UTF");
    assert_eq!(&data[8..10], &[0, 0]);

    let parsed = UtfTable::new(Cursor::new(data)).unwrap();
    assert_eq!(parsed.name, "TestTable");
    assert_eq!(
        parsed.rows[0].get("Name").and_then(Value::as_string),
        Some("test")
    );
}

#[test]
fn test_utf_data_pool_alignment() {
    let mut builder = UtfTableBuilder::new("TestTable");
    builder.add_column(ColumnDef::constant("Blob", Value::Data(vec![1, 2, 3])));
    builder.add_row(ValueMap::default());

    let mut data: Vec<u8> = Vec::new();
    builder.build(&mut data).unwrap();

    let table_size = u32::from_be_bytes(data[4..8].try_into().unwrap()) + 8;
    let data_offset = u32::from_be_bytes(data[16..20].try_into().unwrap()) + 8;

    assert_eq!(data_offset % 32, 0);
    assert_eq!(table_size % 32, 0);
}

#[test]
fn test_value_conversions() {
    let v = Value::U32(42);
    assert_eq!(v.as_int(), Some(42));

    let v = Value::String("test".to_string());
    assert_eq!(v.as_string(), Some("test"));

    let v = Value::Data(vec![1, 2, 3]);
    assert_eq!(v.as_bytes(), Some(&[1u8, 2, 3][..]));
}
