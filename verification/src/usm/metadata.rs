//! What the tables of a USM container say, in plain values.

use vstd::prelude::*;
use vstd::utf8::{decode_utf8, valid_utf8};
use crate::acb::utf::wrap32;
use crate::bytes::{i32_of, same_text};
use crate::float::{float_trunc, truncate_float};
use crate::reader::{addressable, sjis_text, Cursor, IoError, Reader};
use crate::str_map::{folded_keys, StrMap};
use crate::usm::extractor::filename_of;
use crate::usm::header::{
    parts_lie_within, parts_within, read_parts, usm_parts, MarkerSection, UsmParts, UsmPartsModel,
    UtfSectionModel,
};
use crate::usm::table::{
    row_model, row_within, rows_model, rows_within, value_len, DetailedUtfTable, RowModel,
    TableModel, UsmError, UsmFault, UtfModel, UtfRow, UtfTable, UtfValue,
};

verus! {

/// Metadata of a container.
#[derive(Debug, Clone)]
pub struct Metadata {
    pub input_file: Option<String>,
    pub container_filename: Option<String>,
    pub has_audio: bool,
    pub stream_offset: i64,
    pub sections: Vec<MetadataSection>,
}

/// A section of the metadata.
#[derive(Debug, Clone)]
pub struct MetadataSection {
    pub kind: String,
    pub signature: String,
    pub offset: i64,
    pub block_size: Option<u32>,
    pub data: Option<SectionData>,
}

/// A section holds a table or a marker.
#[derive(Debug, Clone)]
pub enum SectionData {
    Table(TableData),
    Marker(String),
}

/// A table with normalized values.
#[derive(Debug, Clone)]
pub struct TableData {
    pub table_name: String,
    pub row_count: usize,
    pub rows: Vec<StrMap<MetadataValue>>,
}

/// A normalized value. A single-precision number is held by its bits.
#[derive(Debug, Clone)]
pub enum MetadataValue {
    Byte(u8),
    SByte(i8),
    UShort(u16),
    Short(i16),
    UInt(u32),
    Int(i32),
    ULong(u64),
    Float(u32),
    String(String),
    Binary(BinarySummary),
}

/// Summary of binary data: its size, and its first bytes in hexadecimal.
#[derive(Debug, Clone)]
pub struct BinarySummary {
    pub size: usize,
    pub preview_hex: Option<String>,
    pub truncated: Option<bool>,
}

/// Why the metadata could not be read.
#[derive(Debug)]
pub enum MetadataError {
    Usm(UsmError),
    Io(IoError),
    InvalidCridSignature,
    InvalidUtfSignature,
    ExpectedSignature(String),
    ExpectedMarker(String),
}

/// What an error says.
pub enum MetadataFault {
    Usm(UsmFault),
    Io(IoError),
    InvalidCridSignature,
    InvalidUtfSignature,
    ExpectedSignature(Seq<char>),
    ExpectedMarker(Seq<char>),
}

impl View for MetadataError {
    type V = MetadataFault;

    open spec fn view(&self) -> MetadataFault {
        match *self {
            MetadataError::Usm(e) => MetadataFault::Usm(e@),
            MetadataError::Io(e) => MetadataFault::Io(e),
            MetadataError::InvalidCridSignature => MetadataFault::InvalidCridSignature,
            MetadataError::InvalidUtfSignature => MetadataFault::InvalidUtfSignature,
            MetadataError::ExpectedSignature(s) => MetadataFault::ExpectedSignature(s@),
            MetadataError::ExpectedMarker(s) => MetadataFault::ExpectedMarker(s@),
        }
    }
}

/// How a fault of the container shows in its metadata.
pub open spec fn metadata_fault(f: UsmFault) -> MetadataFault {
    match f {
        UsmFault::Io(e) => MetadataFault::Io(e),
        UsmFault::InvalidCridSignature => MetadataFault::InvalidCridSignature,
        UsmFault::InvalidUtfSignature => MetadataFault::InvalidUtfSignature,
        UsmFault::ExpectedSignature(s) => MetadataFault::ExpectedSignature(s),
        UsmFault::ExpectedMarker(s) => MetadataFault::ExpectedMarker(s),
        UsmFault::UnknownColumnType(t) => MetadataFault::Usm(UsmFault::UnknownColumnType(t)),
    }
}

/// The metadata error for an error of the container.
pub fn metadata_error(e: UsmError) -> (r: MetadataError)
    ensures
        r@ == metadata_fault(e@),
{
    match e {
        UsmError::Io(e) => MetadataError::Io(e),
        UsmError::InvalidCridSignature => MetadataError::InvalidCridSignature,
        UsmError::InvalidUtfSignature => MetadataError::InvalidUtfSignature,
        UsmError::ExpectedSignature(s) => MetadataError::ExpectedSignature(s),
        UsmError::ExpectedMarker(s) => MetadataError::ExpectedMarker(s),
        UsmError::UnknownColumnType(t) => MetadataError::Usm(UsmError::UnknownColumnType(t)),
    }
}

/// A character that text is not expected to hold: the replacement character,
/// or a control character that is no white space.
pub open spec fn stray(c: char) -> bool {
    let v = c as u32;
    v == 0xFFFD || v <= 0x08 || 0x0E <= v <= 0x1F || 0x7F <= v <= 0x84 || 0x86 <= v <= 0x9F
}

/// Whether text holds no stray character.
pub open spec fn mostly_text(s: Seq<char>) -> bool {
    forall|i: int| 0 <= i < s.len() ==> !stray(#[trigger] s[i])
}

/// Whether text is free of replacement and control characters.
pub fn is_mostly_text(s: &str) -> (r: bool)
    ensures
        r == mostly_text(s@),
{
    for c in iter: s.chars()
        invariant
            iter.seq() == s@,
            forall|i: int| 0 <= i < iter.index() ==> !stray(#[trigger] s@[i]),
    {
        let v: u32 = c as u32;
        if v == 0xFFFD || v <= 0x08 || (0x0E <= v && v <= 0x1F) || (0x7F <= v && v <= 0x84) || (0x86
            <= v && v <= 0x9F) {
            assert(stray(s@[iter.index() as int]));
            return false;
        }
    }
    true
}

/// The text of a Shift-JIS decoding, where it has no malformed sequence and no
/// stray character.
pub open spec fn clean(decoded: (Seq<char>, bool)) -> Option<Seq<char>> {
    if !decoded.1 && mostly_text(decoded.0) { Some(decoded.0) } else { None }
}

/// Keeps a decoding without malformed sequences and stray characters.
pub fn clean_text(decoded: (String, bool)) -> (r: Option<String>)
    ensures
        match (r, clean((decoded.0@, decoded.1))) {
            (Some(s), Some(t)) => s@ == t,
            (None, None) => true,
            _ => false,
        },
{
    if !decoded.1 && is_mostly_text(decoded.0.as_str()) {
        Some(decoded.0)
    } else {
        None
    }
}

/// The text of bytes, as UTF-8 or else as Shift-JIS, where they are text.
pub open spec fn decoded_text(b: Seq<u8>) -> Option<Seq<char>> {
    if b.len() == 0 {
        Some(Seq::empty())
    } else if valid_utf8(b) && mostly_text(decode_utf8(b)) {
        Some(decode_utf8(b))
    } else {
        clean(sjis_text(b))
    }
}

/// The text of bytes, where they are text.
pub fn decode_text_bytes(data: &[u8]) -> (r: Option<String>)
    requires
        addressable(data@.len()),
    ensures
        match (r, decoded_text(data@)) {
            (Some(s), Some(t)) => s@ == t,
            (None, None) => true,
            _ => false,
        },
{
    if data.len() == 0 {
        let s = String::new();
        assert(s@ =~= Seq::empty());
        return Some(s);
    }
    if let Some(text) = crate::reader::utf8_text(data) {
        if is_mostly_text(text.as_str()) {
            return Some(text);
        }
    }
    clean_text(crate::reader::decode_shift_jis(data))
}

/// A hexadecimal digit.
pub open spec fn hex_digit(v: int) -> char {
    if v < 10 { (0x30 + v) as u8 as char } else { (0x57 + v) as u8 as char }
}

/// Two hexadecimal digits per byte.
pub open spec fn hex_text(b: Seq<u8>) -> Seq<char> {
    Seq::new(
        2 * b.len(),
        |i: int| if i % 2 == 0 { hex_digit(b[i / 2] as int / 16) } else {
            hex_digit(b[i / 2] as int % 16)
        },
    )
}

/// Calls `hex::encode`: two lower-case digits for each byte, the high four
/// bits first.
#[verifier::external_body]
fn encode_hex(data: &[u8]) -> (r: String)
    requires
        addressable(data@.len()),
    ensures
        r@ == hex_text(data@),
{
    hex::encode(data)
}

/// The text of bytes, or their hexadecimal digits where they are no text.
pub open spec fn bytes_text(b: Seq<u8>) -> Seq<char> {
    match decoded_text(b) {
        Some(t) => t,
        None => hex_text(b),
    }
}

/// The text of bytes, or their hexadecimal digits where they are no text.
pub fn stringify_bytes(data: &[u8]) -> (r: String)
    requires
        addressable(data@.len()),
    ensures
        r@ == bytes_text(data@),
{
    match decode_text_bytes(data) {
        Some(text) => text,
        None => encode_hex(data),
    }
}

/// The text of a string or a blob.
pub fn stringify_utf_value(value: &UtfValue) -> (r: Option<String>)
    requires
        addressable(value_len(value@)),
    ensures
        match value@ {
            UtfModel::String(b) => r is Some && r->Some_0@ == bytes_text(b),
            UtfModel::Data(b) => r is Some && r->Some_0@ == bytes_text(b),
            _ => r is None,
        },
{
    match value {
        UtfValue::String(s) => Some(stringify_bytes(s.as_slice())),
        UtfValue::Data(data) => Some(stringify_bytes(data.as_slice())),
        _ => None,
    }
}

/// The longest byte string that can be read as text.
pub open spec fn longest_text() -> nat {
    (usize::MAX / 16) as nat
}

/// The file name in the last row, or else the fallback, as text.
pub fn extract_container_filename(rows: &UtfTable, fallback_name: &[u8]) -> (r: String)
    requires
        addressable(fallback_name@.len()),
        rows_within(rows_model(rows@), longest_text()),
    ensures
        r@ == bytes_text(filename_of(rows_model(rows@), fallback_name@)),
{
    let n: usize = rows.len();
    if n > 0 {
        let row = &rows[n - 1];
        proof {
            assert(rows_model(rows@).last() == row_model(row@));
            assert(row_within(rows_model(rows@)[n - 1], longest_text()));
            assert(row_model(row@).contains_key("filename"@) == row@.contains_key("filename"@));
        }
        if let Some(value) = row.find("filename") {
            if let Some(text) = stringify_utf_value(value) {
                return text;
            }
        }
    }
    stringify_bytes(fallback_name)
}

/// A summary of binary data.
pub struct BinaryModel {
    pub size: nat,
    pub preview_hex: Option<Seq<char>>,
    pub truncated: Option<bool>,
}

/// A normalized value.
pub enum MetadataModel {
    Byte(u8),
    SByte(i8),
    UShort(u16),
    Short(i16),
    UInt(u32),
    Int(i32),
    ULong(u64),
    Float(u32),
    String(Seq<char>),
    Binary(BinaryModel),
}

impl View for BinarySummary {
    type V = BinaryModel;

    open spec fn view(&self) -> BinaryModel {
        BinaryModel {
            size: self.size as nat,
            preview_hex: match self.preview_hex {
                Some(s) => Some(s@),
                None => None,
            },
            truncated: self.truncated,
        }
    }
}

impl View for MetadataValue {
    type V = MetadataModel;

    open spec fn view(&self) -> MetadataModel {
        match *self {
            MetadataValue::Byte(v) => MetadataModel::Byte(v),
            MetadataValue::SByte(v) => MetadataModel::SByte(v),
            MetadataValue::UShort(v) => MetadataModel::UShort(v),
            MetadataValue::Short(v) => MetadataModel::Short(v),
            MetadataValue::UInt(v) => MetadataModel::UInt(v),
            MetadataValue::Int(v) => MetadataModel::Int(v),
            MetadataValue::ULong(v) => MetadataModel::ULong(v),
            MetadataValue::Float(v) => MetadataModel::Float(v),
            MetadataValue::String(v) => MetadataModel::String(v@),
            MetadataValue::Binary(v) => MetadataModel::Binary(v@),
        }
    }
}

/// The bytes shown of binary data.
pub const PREVIEW_LIMIT: usize = 32;

/// The summary of binary data.
pub open spec fn summary(b: Seq<u8>) -> BinaryModel {
    if b.len() == 0 {
        BinaryModel { size: 0, preview_hex: None, truncated: None }
    } else if b.len() <= PREVIEW_LIMIT {
        BinaryModel { size: b.len(), preview_hex: Some(hex_text(b)), truncated: None }
    } else {
        BinaryModel {
            size: b.len(),
            preview_hex: Some(hex_text(b.subrange(0, PREVIEW_LIMIT as int))),
            truncated: Some(true),
        }
    }
}

/// The size of binary data, and its first bytes.
pub fn summarize_binary(data: &[u8]) -> (r: BinarySummary)
    ensures
        r@ == summary(data@),
{
    let n: usize = data.len();
    if n == 0 {
        return BinarySummary { size: 0, preview_hex: None, truncated: None };
    }
    let shown: usize = if n > PREVIEW_LIMIT { PREVIEW_LIMIT } else { n };
    let preview = crate::bytes::copy_range(data, 0, shown);
    assert(data@.subrange(0, data@.len() as int) =~= data@);
    BinarySummary {
        size: n,
        preview_hex: Some(encode_hex(preview.as_slice())),
        truncated: if n > PREVIEW_LIMIT { Some(true) } else { None },
    }
}

/// Bytes as text, or summarized where they are no text.
pub open spec fn normalized_bytes(b: Seq<u8>) -> MetadataModel {
    match decoded_text(b) {
        Some(t) => MetadataModel::String(t),
        None => MetadataModel::Binary(summary(b)),
    }
}

/// A value in plain form.
pub open spec fn normalized(v: UtfModel) -> MetadataModel {
    match v {
        UtfModel::Byte(v) => MetadataModel::Byte(v),
        UtfModel::SByte(v) => MetadataModel::SByte(v),
        UtfModel::UShort(v) => MetadataModel::UShort(v),
        UtfModel::Short(v) => MetadataModel::Short(v),
        UtfModel::UInt(v) => MetadataModel::UInt(v),
        UtfModel::Int(v) => MetadataModel::Int(v),
        UtfModel::ULong(v) => MetadataModel::ULong(v),
        UtfModel::Float(v) => MetadataModel::Float(v),
        UtfModel::String(b) => normalized_bytes(b),
        UtfModel::Data(b) => normalized_bytes(b),
    }
}

fn normalize_bytes(data: &[u8]) -> (r: MetadataValue)
    requires
        addressable(data@.len()),
    ensures
        r@ == normalized_bytes(data@),
{
    match decode_text_bytes(data) {
        Some(text) => MetadataValue::String(text),
        None => MetadataValue::Binary(summarize_binary(data)),
    }
}

/// A value in plain form: bytes become text, or a summary where they are none.
pub fn normalize_metadata_value(value: &UtfValue) -> (r: MetadataValue)
    requires
        addressable(value_len(value@)),
    ensures
        r@ == normalized(value@),
{
    match value {
        UtfValue::Byte(v) => MetadataValue::Byte(*v),
        UtfValue::SByte(v) => MetadataValue::SByte(*v),
        UtfValue::UShort(v) => MetadataValue::UShort(*v),
        UtfValue::Short(v) => MetadataValue::Short(*v),
        UtfValue::UInt(v) => MetadataValue::UInt(*v),
        UtfValue::Int(v) => MetadataValue::Int(*v),
        UtfValue::ULong(v) => MetadataValue::ULong(*v),
        UtfValue::Float(v) => MetadataValue::Float(*v),
        UtfValue::String(data) => normalize_bytes(data.as_slice()),
        UtfValue::Data(data) => normalize_bytes(data.as_slice()),
    }
}

/// A row with its values in plain form.
pub open spec fn normalized_row(row: RowModel) -> Map<Seq<char>, MetadataModel> {
    row.map_values(|v: UtfModel| normalized(v))
}

/// What a row of plain values holds.
pub open spec fn plain_row(row: Map<Seq<char>, MetadataValue>) -> Map<Seq<char>, MetadataModel> {
    row.map_values(|v: MetadataValue| v@)
}

/// What rows of plain values hold.
pub open spec fn plain_rows(rows: Seq<StrMap<MetadataValue>>) -> Seq<
    Map<Seq<char>, MetadataModel>,
> {
    Seq::new(rows.len(), |i: int| plain_row(rows[i]@))
}

/// Rows with their values in plain form.
pub open spec fn normalized_rows(rows: Seq<RowModel>) -> Seq<Map<Seq<char>, MetadataModel>> {
    Seq::new(rows.len(), |i: int| normalized_row(rows[i]))
}

fn normalize_row(row: &UtfRow) -> (r: StrMap<MetadataValue>)
    requires
        row_within(row_model(row@), longest_text()),
    ensures
        plain_row(r@) == normalized_row(row_model(row@)),
{
    let mut out: StrMap<MetadataValue> = StrMap::new();
    let ghost entries = row.entries();
    proof {
        row.entries_fold();
        assert forall|k: Seq<char>| #[trigger] row@.contains_key(k) implies exists|j: int|
            0 <= j < entries.len() && (#[trigger] entries[j]).0@ == k by {
            folded_keys(entries, k);
        }
        assert forall|j: int| 0 <= j < entries.len() implies row@.contains_key(
            (#[trigger] entries[j]).0@,
        ) by {
            folded_keys(entries, entries[j].0@);
        }
    }
    let n: usize = row.len();
    let mut i: usize = 0;
    while i < n
        invariant
            n == entries.len(),
            entries == row.entries(),
            i <= n,
            row_within(row_model(row@), longest_text()),
            forall|j: int| 0 <= j < n ==> row@.contains_key((#[trigger] entries[j]).0@),
            forall|j: int| 0 <= j < i ==> out@.contains_key((#[trigger] entries[j]).0@),
            forall|k: Seq<char>| #[trigger]
                out@.contains_key(k) ==> row@.contains_key(k) && out@[k]@ == normalized(row@[k]@),
        decreases n - i,
    {
        let (key, _) = row.entry(i);
        if let Some(value) = row.find(key.as_str()) {
            assert(row_model(row@).contains_key(key@));
            out.insert(key.clone(), normalize_metadata_value(value));
        }
        i += 1;
    }
    assert(plain_row(out@) =~= normalized_row(row_model(row@)));
    out
}

/// Rows with their values in plain form.
pub fn normalize_rows(rows: &UtfTable) -> (r: Vec<StrMap<MetadataValue>>)
    requires
        rows_within(rows_model(rows@), longest_text()),
    ensures
        plain_rows(r@) == normalized_rows(rows_model(rows@)),
{
    let mut out: Vec<StrMap<MetadataValue>> = Vec::new();
    let mut i: usize = 0;
    while i < rows.len()
        invariant
            i <= rows@.len(),
            rows_within(rows_model(rows@), longest_text()),
            out@.len() == i,
            forall|j: int|
                0 <= j < i ==> plain_row((#[trigger] out@[j])@) == normalized_row(
                    rows_model(rows@)[j],
                ),
        decreases rows@.len() - i,
    {
        assert(row_within(rows_model(rows@)[i as int], longest_text()));
        out.push(normalize_row(&rows[i]));
        i += 1;
    }
    assert(plain_rows(out@) =~= normalized_rows(rows_model(rows@)));
    out
}

/// What a table of plain values holds.
pub struct TableDataModel {
    pub table_name: Seq<char>,
    pub row_count: nat,
    pub rows: Seq<Map<Seq<char>, MetadataModel>>,
}

impl View for TableData {
    type V = TableDataModel;

    open spec fn view(&self) -> TableDataModel {
        TableDataModel {
            table_name: self.table_name@,
            row_count: self.row_count as nat,
            rows: plain_rows(self.rows@),
        }
    }
}

/// A table in plain form.
pub open spec fn normalized_table(t: TableModel) -> TableDataModel {
    TableDataModel {
        table_name: t.name,
        row_count: t.rows.len(),
        rows: normalized_rows(t.rows),
    }
}

/// A table in plain form.
pub fn normalize_detailed_utf_table(table: &DetailedUtfTable) -> (r: TableData)
    requires
        rows_within(table@.rows, longest_text()),
    ensures
        r@ == normalized_table(table@),
{
    TableData {
        table_name: table.name.clone(),
        row_count: table.rows.len(),
        rows: normalize_rows(&table.rows),
    }
}

/// What a section holds.
pub enum SectionDataModel {
    Table(TableDataModel),
    Marker(Seq<char>),
}

/// A section of the metadata.
pub struct SectionModel {
    pub kind: Seq<char>,
    pub signature: Seq<char>,
    pub offset: int,
    pub block_size: Option<u32>,
    pub data: Option<SectionDataModel>,
}

impl View for MetadataSection {
    type V = SectionModel;

    open spec fn view(&self) -> SectionModel {
        SectionModel {
            kind: self.kind@,
            signature: self.signature@,
            offset: self.offset as int,
            block_size: self.block_size,
            data: match self.data {
                Some(SectionData::Table(t)) => Some(SectionDataModel::Table(t@)),
                Some(SectionData::Marker(m)) => Some(SectionDataModel::Marker(m@)),
                None => None,
            },
        }
    }
}

/// What a list of sections holds.
pub open spec fn sections_model(sections: Seq<MetadataSection>) -> Seq<SectionModel> {
    Seq::new(sections.len(), |i: int| sections[i]@)
}

/// A section with a table.
pub open spec fn table_section(
    kind: Seq<char>,
    signature: Seq<char>,
    s: UtfSectionModel,
) -> SectionModel {
    SectionModel {
        kind,
        signature,
        offset: s.offset,
        block_size: Some(s.block_size),
        data: Some(SectionDataModel::Table(normalized_table(s.table))),
    }
}

/// A section with a marker.
pub open spec fn mark_section(
    kind: Seq<char>,
    signature: Seq<char>,
    s: MarkerSection,
    marker: Seq<char>,
) -> SectionModel {
    SectionModel {
        kind,
        signature,
        offset: s.offset as int,
        block_size: Some(s.block_size),
        data: Some(SectionDataModel::Marker(marker)),
    }
}

/// The sections of the metadata, in the order of their chunks.
pub open spec fn metadata_sections(p: UsmPartsModel) -> Seq<SectionModel> {
    let directory = UtfSectionModel { offset: 0, block_size: p.block_size, table: p.directory };
    let first = seq![
        table_section("crid"@, "CRID"@, directory),
        table_section("video_header"@, "@SFV"@, p.header.video),
    ];
    let headers = match p.header.audio {
        Some(a) => first.push(table_section("audio_header"@, "@SFA"@, a)),
        None => first,
    };
    let video_end = headers.push(
        mark_section("video_header_end"@, "@SFV"@, p.header.video_end, "#HEADER END"@),
    );
    let ends = match p.header.audio_end {
        Some(m) => video_end.push(mark_section("audio_header_end"@, "@SFA"@, m, "#HEADER END"@)),
        None => video_end,
    };
    ends.push(table_section("video_metadata"@, "@SFV"@, p.metadata.table)).push(
        mark_section("video_metadata_end"@, "@SFV"@, p.metadata.end, "#METADATA END"@),
    )
}

fn put_table(
    sections: &mut Vec<MetadataSection>,
    kind: &str,
    signature: &str,
    offset: i64,
    block_size: u32,
    table: &DetailedUtfTable,
)
    requires
        rows_within(table@.rows, longest_text()),
    ensures
        sections_model(final(sections)@) == sections_model(old(sections)@).push(
            table_section(
                kind@,
                signature@,
                UtfSectionModel { offset: offset as int, block_size, table: table@ },
            ),
        ),
{
    let section = MetadataSection {
        kind: kind.to_owned(),
        signature: signature.to_owned(),
        offset,
        block_size: Some(block_size),
        data: Some(SectionData::Table(normalize_detailed_utf_table(table))),
    };
    let ghost model = section@;
    sections.push(section);
    assert(sections_model(sections@) =~= sections_model(old(sections)@).push(model));
}

fn put_marker(
    sections: &mut Vec<MetadataSection>,
    kind: &str,
    signature: &str,
    section: &MarkerSection,
    marker: &str,
)
    ensures
        sections_model(final(sections)@) == sections_model(old(sections)@).push(
            mark_section(kind@, signature@, *section, marker@),
        ),
{
    let section = MetadataSection {
        kind: kind.to_owned(),
        signature: signature.to_owned(),
        offset: section.offset,
        block_size: Some(section.block_size),
        data: Some(SectionData::Marker(marker.to_owned())),
    };
    let ghost model = section@;
    sections.push(section);
    assert(sections_model(sections@) =~= sections_model(old(sections)@).push(model));
}

/// Read metadata from a USM reader
///
/// The stream offset is where the extraction of the streams starts.
pub fn read_metadata(usm: Cursor, fallback_name: &[u8]) -> (r: Result<Metadata, MetadataError>)
    requires
        addressable(usm.data().len()),
        addressable(fallback_name@.len()),
    ensures
        match (r, usm_parts(usm.data(), usm.pos(), true)) {
            (Ok(m), Ok(p)) => {
                &&& m.input_file is None
                &&& m.container_filename is Some
                &&& m.container_filename->Some_0@ == bytes_text(
                    filename_of(p.directory.rows, fallback_name@),
                )
                &&& m.has_audio == p.header.audio is Some
                &&& m.stream_offset == p.metadata.stream_offset
                &&& sections_model(m.sections@) == metadata_sections(p)
            },
            (Err(e), Err(f)) => e@ == metadata_fault(f),
            _ => false,
        },
{
    let ghost d = usm.data();
    let ghost pos = usm.pos();
    let mut reader = Reader::new(usm);
    let parts = match read_parts(&mut reader, true) {
        Ok(v) => v,
        Err(e) => { return Err(metadata_error(e)); },
    };
    proof {
        parts_lie_within(d, pos, true);
        let p = parts@;
        rows_grow(p.directory.rows, d.len());
        rows_grow(p.header.video.table.rows, d.len());
        rows_grow(p.metadata.table.table.rows, d.len());
        if p.header.audio is Some {
            rows_grow(p.header.audio->Some_0.table.rows, d.len());
        }
    }
    let container_filename = extract_container_filename(&parts.directory.rows, fallback_name);
    let sections = read_metadata_sections(&parts);
    Ok(
        Metadata {
            input_file: None,
            container_filename: Some(container_filename),
            has_audio: parts.header.audio.is_some(),
            stream_offset: parts.metadata.stream_offset as i64,
            sections,
        },
    )
}

proof fn rows_grow(rows: Seq<RowModel>, n: nat)
    requires
        rows_within(rows, n),
        n <= longest_text(),
    ensures
        rows_within(rows, longest_text()),
{
    assert forall|i: int| 0 <= i < rows.len() implies row_within(
        #[trigger] rows[i],
        longest_text(),
    ) by {
        assert(row_within(rows[i], n));
    }
}

/// The sections of the metadata, in the order of their chunks.
fn read_metadata_sections(parts: &UsmParts) -> (r: Vec<MetadataSection>)
    requires
        parts_within(parts@, longest_text()),
    ensures
        sections_model(r@) == metadata_sections(parts@),
{
    let mut sections: Vec<MetadataSection> = Vec::new();
    put_table(&mut sections, "crid", "CRID", 0, parts.block_size, &parts.directory);
    let video = &parts.header.video;
    put_table(
        &mut sections,
        "video_header",
        "@SFV",
        video.offset,
        video.block_size,
        &video.table,
    );
    if let Some(audio) = &parts.header.audio {
        put_table(
            &mut sections,
            "audio_header",
            "@SFA",
            audio.offset,
            audio.block_size,
            &audio.table,
        );
    }
    put_marker(
        &mut sections,
        "video_header_end",
        "@SFV",
        &parts.header.video_end,
        "#HEADER END",
    );
    if let Some(end) = &parts.header.audio_end {
        put_marker(&mut sections, "audio_header_end", "@SFA", end, "#HEADER END");
    }
    let table = &parts.metadata.table;
    put_table(
        &mut sections,
        "video_metadata",
        "@SFV",
        table.offset,
        table.block_size,
        &table.table,
    );
    put_marker(
        &mut sections,
        "video_metadata_end",
        "@SFV",
        &parts.metadata.end,
        "#METADATA END",
    );
    assert(sections_model(sections@) =~= metadata_sections(parts@));
    sections
}

/// The number that a plain value stands for, in 32 bits.
pub open spec fn number_of(v: MetadataModel) -> Option<i32> {
    match v {
        MetadataModel::Byte(v) => Some(v as i32),
        MetadataModel::SByte(v) => Some(v as i32),
        MetadataModel::UShort(v) => Some(v as i32),
        MetadataModel::Short(v) => Some(v as i32),
        MetadataModel::UInt(v) => Some(i32_of(v)),
        MetadataModel::Int(v) => Some(v),
        MetadataModel::ULong(v) => Some(i32_of(wrap32(v as int))),
        MetadataModel::Float(v) => Some(float_trunc(v, 0)),
        _ => None,
    }
}

fn signed_word(v: u32) -> (r: i32)
    ensures
        r == i32_of(v),
{
    if v < 0x8000_0000 {
        v as i32
    } else {
        (v as i64 - 0x1_0000_0000) as i32
    }
}

/// The number that a plain value stands for: the low 32 bits of a whole one,
/// the whole part of another.
pub fn metadata_number_to_i32(value: &MetadataValue) -> (r: Option<i32>)
    ensures
        r == number_of(value@),
{
    match value {
        MetadataValue::Byte(v) => Some(*v as i32),
        MetadataValue::SByte(v) => Some(*v as i32),
        MetadataValue::UShort(v) => Some(*v as i32),
        MetadataValue::Short(v) => Some(*v as i32),
        MetadataValue::UInt(v) => Some(signed_word(*v)),
        MetadataValue::Int(v) => Some(*v),
        MetadataValue::ULong(v) => Some(signed_word((*v % 0x1_0000_0000) as u32)),
        MetadataValue::Float(v) => Some(truncate_float(*v, 0)),
        _ => None,
    }
}

/// The number in a column of a row.
pub open spec fn number_in(row: Map<Seq<char>, MetadataModel>, key: Seq<char>) -> Option<i32> {
    if row.contains_key(key) { number_of(row[key]) } else { None }
}

/// The frame rate that the sections from `i` on state: that of the first video
/// header with a row whose denominator is not zero. A row without either
/// number ends the search.
pub open spec fn frame_rate(sections: Seq<SectionModel>, i: nat) -> Option<(i32, i32)>
    decreases sections.len() - i,
{
    if i >= sections.len() {
        None
    } else {
        let s = sections[i as int];
        match s.data {
            Some(SectionDataModel::Table(t)) if s.kind == "video_header"@ && t.rows.len() > 0 => {
                match (number_in(t.rows[0], "framerate_n"@), number_in(t.rows[0], "framerate_d"@)) {
                    (Some(n), Some(d)) => if d != 0 {
                        Some((n, d))
                    } else {
                        frame_rate(sections, i + 1)
                    },
                    _ => None,
                }
            },
            _ => frame_rate(sections, i + 1),
        }
    }
}

fn number_at(row: &StrMap<MetadataValue>, key: &str) -> (r: Option<i32>)
    ensures
        r == number_in(plain_row(row@), key@),
{
    match row.find(key) {
        Some(v) => metadata_number_to_i32(v),
        None => None,
    }
}

impl Metadata {
    /// Get video frame rate from metadata
    pub fn video_frame_rate(&self) -> (r: Option<(i32, i32)>)
        ensures
            r == frame_rate(sections_model(self.sections@), 0),
    {
        let ghost model = sections_model(self.sections@);
        let mut i: usize = 0;
        while i < self.sections.len()
            invariant
                i <= self.sections@.len(),
                model == sections_model(self.sections@),
                frame_rate(model, 0) == frame_rate(model, i as nat),
            decreases self.sections@.len() - i,
        {
            let section = &self.sections[i];
            assert(model[i as int] == section@);
            if same_text(section.kind.as_str(), "video_header") {
                if let Some(SectionData::Table(table)) = &section.data {
                    if table.rows.len() > 0 {
                        let row = &table.rows[0];
                        assert(plain_rows(table.rows@)[0] == plain_row(row@));
                        let n = match number_at(row, "framerate_n") {
                            Some(v) => v,
                            None => { return None; },
                        };
                        let d = match number_at(row, "framerate_d") {
                            Some(v) => v,
                            None => { return None; },
                        };
                        if d != 0 {
                            return Some((n, d));
                        }
                    }
                }
            }
            i += 1;
        }
        None
    }
}

} // verus!
