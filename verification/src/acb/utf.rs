//! `@UTF` tables: values, rows and the parser.

use vstd::prelude::*;
use rustc_hash::FxHashMap;
use crate::acb::consts::{
    COLUMN_FLAG_DEFAULT, COLUMN_FLAG_MASK, COLUMN_FLAG_NAME, COLUMN_FLAG_ROW,
    COLUMN_FLAG_UNDEFINED, COLUMN_TYPE_1BYTE, COLUMN_TYPE_1BYTE2, COLUMN_TYPE_2BYTE,
    COLUMN_TYPE_2BYTE2, COLUMN_TYPE_4BYTE, COLUMN_TYPE_4BYTE2, COLUMN_TYPE_8BYTE,
    COLUMN_TYPE_DATA, COLUMN_TYPE_FLOAT, COLUMN_TYPE_MASK, COLUMN_TYPE_STRING,
};
use crate::bytes::{i16_of, i32_of, i64_of, i8_of, u16_be, u32_be, u64_be};
use crate::reader::{
    addressable, remaining, slice_at, string_at, Cursor, IoError, Reader, SeekFrom,
};

verus! {

/// Why a table could not be read.
#[derive(Debug)]
pub enum UtfError {
    Io(IoError),
    BadMagic(u32),
    NoColumns,
    SchemaTooLarge(u32),
    OffsetOutOfBounds,
    UnsupportedVersion(u16),
    UnknownColumnFlag(u8),
    UnknownColumnType(u8),
    FieldNotFound(String),
}

/// UTF table header.
#[derive(Debug, Clone, Copy, PartialEq, Eq, Structural)]
pub struct UtfHeader {
    pub table_size: u32,
    pub version: u16,
    pub row_offset: u16,
    pub string_table_offset: u32,
    pub data_offset: u32,
    pub table_name_offset: u32,
    pub number_of_fields: u16,
    pub row_size: u16,
    pub number_of_rows: u32,
}

impl Default for UtfHeader {
    fn default() -> (r: Self)
        ensures
            r == (UtfHeader {
                table_size: 0,
                version: 0,
                row_offset: 0,
                string_table_offset: 0,
                data_offset: 0,
                table_name_offset: 0,
                number_of_fields: 0,
                row_size: 0,
                number_of_rows: 0,
            }),
    {
        UtfHeader {
            table_size: 0,
            version: 0,
            row_offset: 0,
            string_table_offset: 0,
            data_offset: 0,
            table_name_offset: 0,
            number_of_fields: 0,
            row_size: 0,
            number_of_rows: 0,
        }
    }
}

/// Dynamic value type for UTF table columns. A single-precision number is
/// held as its bit pattern.
#[derive(Debug)]
pub enum Value {
    U8(u8),
    I8(i8),
    U16(u16),
    I16(i16),
    U32(u32),
    I32(i32),
    U64(u64),
    F32(u32),
    String(String),
    Data(Vec<u8>),
}

/// What a value holds.
pub enum ValueModel {
    U8(u8),
    I8(i8),
    U16(u16),
    I16(i16),
    U32(u32),
    I32(i32),
    U64(u64),
    F32(u32),
    String(Seq<char>),
    Data(Seq<u8>),
}

impl View for Value {
    type V = ValueModel;

    open spec fn view(&self) -> ValueModel {
        match *self {
            Value::U8(v) => ValueModel::U8(v),
            Value::I8(v) => ValueModel::I8(v),
            Value::U16(v) => ValueModel::U16(v),
            Value::I16(v) => ValueModel::I16(v),
            Value::U32(v) => ValueModel::U32(v),
            Value::I32(v) => ValueModel::I32(v),
            Value::U64(v) => ValueModel::U64(v),
            Value::F32(v) => ValueModel::F32(v),
            Value::String(s) => ValueModel::String(s@),
            Value::Data(d) => ValueModel::Data(d@),
        }
    }
}

impl Clone for Value {
    fn clone(&self) -> (r: Self)
        ensures
            r@ == self@,
    {
        match self {
            Value::U8(v) => Value::U8(*v),
            Value::I8(v) => Value::I8(*v),
            Value::U16(v) => Value::U16(*v),
            Value::I16(v) => Value::I16(*v),
            Value::U32(v) => Value::U32(*v),
            Value::I32(v) => Value::I32(*v),
            Value::U64(v) => Value::U64(*v),
            Value::F32(v) => Value::F32(*v),
            Value::String(s) => Value::String(s.clone()),
            Value::Data(d) => Value::Data(crate::bytes::copy_bytes(d.as_slice())),
        }
    }
}

impl ValueModel {
    /// The bytes of a data value.
    pub open spec fn bytes(self) -> Option<Seq<u8>> {
        match self {
            ValueModel::Data(d) => Some(d),
            _ => None,
        }
    }

    /// The text of a string value.
    pub open spec fn text(self) -> Option<Seq<char>> {
        match self {
            ValueModel::String(s) => Some(s),
            _ => None,
        }
    }

    /// The number of an integer value; 64-bit values are read as signed.
    pub open spec fn number(self) -> Option<i64> {
        match self {
            ValueModel::U8(v) => Some(v as i64),
            ValueModel::I8(v) => Some(v as i64),
            ValueModel::U16(v) => Some(v as i64),
            ValueModel::I16(v) => Some(v as i64),
            ValueModel::U32(v) => Some(v as i64),
            ValueModel::I32(v) => Some(v as i64),
            ValueModel::U64(v) => Some(i64_of(v)),
            _ => None,
        }
    }
}

/// Whether an optional slice holds what an optional sequence says.
pub open spec fn bytes_match(r: Option<&[u8]>, m: Option<Seq<u8>>) -> bool {
    match r {
        Some(b) => m == Some(b@),
        None => m is None,
    }
}

/// Whether an optional string holds what an optional sequence says.
pub open spec fn text_match(r: Option<&str>, m: Option<Seq<char>>) -> bool {
    match r {
        Some(s) => m == Some(s@),
        None => m is None,
    }
}

impl Value {
    pub fn as_bytes(&self) -> (r: Option<&[u8]>)
        ensures
            bytes_match(r, self@.bytes()),
    {
        match self {
            Value::Data(v) => Some(v.as_slice()),
            _ => None,
        }
    }

    pub fn as_string(&self) -> (r: Option<&str>)
        ensures
            text_match(r, self@.text()),
    {
        match self {
            Value::String(s) => Some(s.as_str()),
            _ => None,
        }
    }

    pub fn as_int(&self) -> (r: Option<i64>)
        ensures
            r == self@.number(),
    {
        match self {
            Value::U8(v) => Some(*v as i64),
            Value::I8(v) => Some(*v as i64),
            Value::U16(v) => Some(*v as i64),
            Value::I16(v) => Some(*v as i64),
            Value::U32(v) => Some(*v as i64),
            Value::I32(v) => Some(*v as i64),
            Value::U64(v) => Some(crate::bytes::to_i64(*v)),
            _ => None,
        }
    }
}

/// The hasher of `rustc_hash`, which carries no state.
#[verifier::external_type_specification]
#[verifier::external_body]
pub struct ExFxBuildHasher(rustc_hash::FxBuildHasher);

/// Row/constant map for parsed UTF tables, with the fast hasher of
/// `rustc_hash`: the keys come from trusted binary tables.
pub type ValueMap = FxHashMap<String, Value>;

/// The entries of a map, by the text of the key.
pub uninterp spec fn entries(m: FxHashMap<String, Value>) -> Map<Seq<char>, ValueModel>;

/// Whether an optional value holds what a map says of a key.
pub open spec fn lookup_matches(
    r: Option<ValueModel>,
    m: Map<Seq<char>, ValueModel>,
    key: Seq<char>,
) -> bool {
    match r {
        Some(v) => m.contains_key(key) && m[key] == v,
        None => !m.contains_key(key),
    }
}

/// A map without entries.
pub open spec fn no_entries() -> Map<Seq<char>, ValueModel> {
    Map::empty()
}

/// What an optional value holds.
pub open spec fn owned_model(r: Option<Value>) -> Option<ValueModel> {
    match r {
        Some(v) => Some(v@),
        None => None,
    }
}

/// What an optional borrowed value holds.
pub open spec fn borrowed_model(r: Option<&Value>) -> Option<ValueModel> {
    match r {
        Some(v) => Some(v@),
        None => None,
    }
}

/// Calls `FxHashMap::default`: a map without entries.
#[verifier::external_body]
pub(crate) fn value_map_new() -> (r: ValueMap)
    ensures
        entries(r) == no_entries(),
{
    ValueMap::default()
}

/// Calls `FxHashMap::insert`: the key now has the value, other entries stay,
/// and the value that the key had comes back.
#[verifier::external_body]
pub(crate) fn value_map_insert(m: &mut ValueMap, key: String, value: Value) -> (r: Option<Value>)
    ensures
        entries(*final(m)) == entries(*old(m)).insert(key@, value@),
        lookup_matches(owned_model(r), entries(*old(m)), key@),
{
    m.insert(key, value)
}

/// Calls `FxHashMap::get`: the value of a key, where the map has the key.
#[verifier::external_body]
pub(crate) fn value_map_get<'a>(m: &'a ValueMap, key: &str) -> (r: Option<&'a Value>)
    ensures
        lookup_matches(borrowed_model(r), entries(*m), key@),
{
    m.get(key)
}

/// Calls `FxHashMap::clone`: a map with the same entries.
#[verifier::external_body]
pub(crate) fn value_map_clone(m: &ValueMap) -> (r: ValueMap)
    ensures
        entries(r) == entries(*m),
{
    m.clone()
}

/// The part of an entry that `f` picks, where the key is there.
pub open spec fn field<T>(
    m: Map<Seq<char>, ValueModel>,
    key: Seq<char>,
    f: spec_fn(ValueModel) -> Option<T>,
) -> Option<T> {
    if m.contains_key(key) { f(m[key]) } else { None }
}

/// Helper to get bytes field from a row.
pub fn get_bytes_field<'a>(row: &'a ValueMap, key: &str) -> (r: Option<&'a [u8]>)
    ensures
        bytes_match(r, field(entries(*row), key@, |v: ValueModel| v.bytes())),
{
    match value_map_get(row, key) {
        Some(v) => v.as_bytes(),
        None => None,
    }
}

/// Move (take ownership of) a bytes field out of a row, leaving an empty
/// placeholder. Avoids cloning large embedded blobs such as the embedded AWB.
pub fn take_bytes_field(row: &mut ValueMap, key: &str) -> (r: Option<Vec<u8>>)
    ensures
        match field(entries(*old(row)), key@, |v: ValueModel| v.bytes()) {
            Some(d) => {
                &&& r is Some
                &&& r->Some_0@ == d
                &&& entries(*final(row)) == entries(*old(row)).insert(
                    key@,
                    ValueModel::Data(Seq::empty()),
                )
            },
            None => r is None && entries(*final(row)) == entries(*old(row)),
        },
{
    let is_data = match value_map_get(row, key) {
        Some(Value::Data(_)) => true,
        _ => false,
    };
    if !is_data {
        return None;
    }
    let empty: Vec<u8> = Vec::new();
    assert(empty@ =~= Seq::<u8>::empty());
    match value_map_insert(row, key.to_owned(), Value::Data(empty)) {
        Some(Value::Data(d)) => Some(d),
        _ => None,
    }
}

/// Helper to get string field from a row.
pub fn get_string_field<'a>(row: &'a ValueMap, key: &str) -> (r: Option<&'a str>)
    ensures
        text_match(r, field(entries(*row), key@, |v: ValueModel| v.text())),
{
    match value_map_get(row, key) {
        Some(v) => v.as_string(),
        None => None,
    }
}

/// The integer of an entry; zero where there is none.
pub open spec fn int_field(m: Map<Seq<char>, ValueModel>, key: Seq<char>) -> i64 {
    match field(m, key, |v: ValueModel| v.number()) {
        Some(n) => n,
        None => 0,
    }
}

/// Helper to get integer field from a row.
pub fn get_int_field(row: &ValueMap, key: &str) -> (r: i64)
    ensures
        r == int_field(entries(*row), key@),
{
    match value_map_get(row, key) {
        Some(v) => match v.as_int() {
            Some(n) => n,
            None => 0,
        },
        None => 0,
    }
}

/// The number that starts every table: the letters `@UTF`.
pub const UTF_MAGIC: u32 = 0x4055_5446;

/// Schemas of this size or more are refused.
pub const UTF_MAX_SCHEMA_SIZE: u32 = 0x8000;

/// Offset of the first column in a table.
pub const UTF_SCHEMA_OFFSET: u32 = 0x20;

/// A sum in 32 bits, without its carry.
pub open spec fn wrap32(v: int) -> u32 {
    (v % 0x1_0000_0000) as u32
}

/// Adds in 32 bits and drops the carry.
pub fn wrapping_sum(a: u32, b: u32) -> (r: u32)
    ensures
        r == wrap32(a + b),
{
    ((a as u64 + b as u64) % 0x1_0000_0000) as u32
}

/// The fields of a header, from its 32 bytes.
pub open spec fn utf_header(b: Seq<u8>) -> UtfHeader {
    UtfHeader {
        table_size: u32_be(b.subrange(4, 8)),
        version: u16_be(b.subrange(8, 10)),
        row_offset: u16_be(b.subrange(10, 12)),
        string_table_offset: u32_be(b.subrange(12, 16)),
        data_offset: u32_be(b.subrange(16, 20)),
        table_name_offset: u32_be(b.subrange(20, 24)),
        number_of_fields: u16_be(b.subrange(24, 26)),
        row_size: u16_be(b.subrange(26, 28)),
        number_of_rows: u32_be(b.subrange(28, 32)),
    }
}

impl UtfHeader {
    /// Where the rows start; the header counts from its ninth byte.
    pub open spec fn rows_at(self) -> u32 {
        wrap32(self.row_offset + 8)
    }

    /// Where the strings start.
    pub open spec fn strings_at(self) -> u32 {
        wrap32(self.string_table_offset + 8)
    }

    /// Where the data blobs start.
    pub open spec fn data_at(self) -> u32 {
        wrap32(self.data_offset + 8)
    }

    /// The bytes between the header and the rows.
    pub open spec fn schema_size(self) -> u32 {
        wrap32(self.rows_at() - UTF_SCHEMA_OFFSET)
    }

    /// What is wrong with a header, if anything.
    pub open spec fn error(self) -> Option<UtfError> {
        let end = wrap32(self.table_size + 8);
        if self.version != 0 && self.version != 1 {
            Some(UtfError::UnsupportedVersion(self.version))
        } else if self.number_of_fields == 0 {
            Some(UtfError::NoColumns)
        } else if self.schema_size() >= UTF_MAX_SCHEMA_SIZE {
            Some(UtfError::SchemaTooLarge(self.schema_size()))
        } else if self.rows_at() > end || self.strings_at() > end || self.data_at() > end {
            Some(UtfError::OffsetOutOfBounds)
        } else {
            None
        }
    }

    /// Checks a header; offset sums are taken in 32 bits.
    pub fn check(&self) -> (r: Result<(), UtfError>)
        ensures
            match self.error() {
                Some(e) => r == Err::<(), UtfError>(e),
                None => r is Ok,
            },
    {
        let rows_at: u32 = wrapping_sum(self.row_offset as u32, 8);
        let strings_at: u32 = wrapping_sum(self.string_table_offset, 8);
        let data_at: u32 = wrapping_sum(self.data_offset, 8);
        let end: u32 = wrapping_sum(self.table_size, 8);
        let schema_size: u32 = wrapping_sum(rows_at, 0xFFFF_FFE0);
        if self.version != 0 && self.version != 1 {
            return Err(UtfError::UnsupportedVersion(self.version));
        }
        if self.number_of_fields == 0 {
            return Err(UtfError::NoColumns);
        }
        if schema_size >= UTF_MAX_SCHEMA_SIZE {
            return Err(UtfError::SchemaTooLarge(schema_size));
        }
        if rows_at > end || strings_at > end || data_at > end {
            return Err(UtfError::OffsetOutOfBounds);
        }
        Ok(())
    }
}

/// The bytes that a value of a column type takes.
pub open spec fn type_width(typ: u8) -> Option<nat> {
    if typ == COLUMN_TYPE_1BYTE || typ == COLUMN_TYPE_1BYTE2 {
        Some(1)
    } else if typ == COLUMN_TYPE_2BYTE || typ == COLUMN_TYPE_2BYTE2 {
        Some(2)
    } else if typ == COLUMN_TYPE_4BYTE || typ == COLUMN_TYPE_4BYTE2 || typ == COLUMN_TYPE_FLOAT
        || typ == COLUMN_TYPE_STRING {
        Some(4)
    } else if typ == COLUMN_TYPE_8BYTE || typ == COLUMN_TYPE_DATA {
        Some(8)
    } else {
        None
    }
}

/// The value of a column type stored at `pos`. Strings and blobs are stored as
/// offsets from `strings` and `blobs`.
pub open spec fn value_at(
    d: Seq<u8>,
    pos: nat,
    typ: u8,
    strings: u32,
    blobs: u32,
) -> Result<ValueModel, UtfError> {
    match type_width(typ) {
        None => Err(UtfError::UnknownColumnType(typ)),
        Some(w) => if w > remaining(d.len(), pos) {
            Err(UtfError::Io(IoError::UnexpectedEof))
        } else {
            let b = slice_at(d, pos, w);
            if typ == COLUMN_TYPE_DATA {
                let at = wrap32(blobs + u32_be(b.subrange(0, 4))) as nat;
                let size = u32_be(b.subrange(4, 8)) as nat;
                if size <= remaining(d.len(), at) {
                    Ok(ValueModel::Data(slice_at(d, at, size)))
                } else {
                    Err(UtfError::Io(IoError::UnexpectedEof))
                }
            } else if typ == COLUMN_TYPE_STRING {
                match string_at(d, wrap32(strings + u32_be(b)) as nat) {
                    Some(s) => Ok(ValueModel::String(s)),
                    None => Err(UtfError::Io(IoError::UnexpectedEof)),
                }
            } else if typ == COLUMN_TYPE_FLOAT {
                Ok(ValueModel::F32(u32_be(b)))
            } else if typ == COLUMN_TYPE_8BYTE {
                Ok(ValueModel::U64(u64_be(b)))
            } else if typ == COLUMN_TYPE_4BYTE2 {
                Ok(ValueModel::I32(i32_of(u32_be(b))))
            } else if typ == COLUMN_TYPE_4BYTE {
                Ok(ValueModel::U32(u32_be(b)))
            } else if typ == COLUMN_TYPE_2BYTE2 {
                Ok(ValueModel::I16(i16_of(u16_be(b))))
            } else if typ == COLUMN_TYPE_2BYTE {
                Ok(ValueModel::U16(u16_be(b)))
            } else if typ == COLUMN_TYPE_1BYTE2 {
                Ok(ValueModel::I8(i8_of(b[0])))
            } else {
                Ok(ValueModel::U8(b[0]))
            }
        },
    }
}

/// Column schema information; `offset` is the place within a row.
#[derive(Debug)]
pub struct ColumnSchema {
    pub flag: u8,
    pub typ: u8,
    pub name: String,
    pub offset: u32,
}

/// What a column's schema holds.
pub struct ColumnModel {
    pub flag: u8,
    pub typ: u8,
    pub name: Seq<char>,
    pub offset: u32,
}

impl View for ColumnSchema {
    type V = ColumnModel;

    open spec fn view(&self) -> ColumnModel {
        ColumnModel { flag: self.flag, typ: self.typ, name: self.name@, offset: self.offset }
    }
}

/// What has been read of a schema: the place of the next column, the bytes of a
/// row so far, the columns, the names of the per-row columns in order, and the
/// constants.
pub struct SchemaModel {
    pub pos: nat,
    pub row_width: nat,
    pub columns: Seq<ColumnModel>,
    pub keys: Seq<Seq<char>>,
    pub constants: Map<Seq<char>, ValueModel>,
}

/// Whether a column's flags are refused.
pub open spec fn flag_refused(flag: u8) -> bool {
    flag == 0 || flag & COLUMN_FLAG_NAME == 0 || flag & COLUMN_FLAG_UNDEFINED != 0
}

/// Whether a column's value stands in each row.
pub open spec fn stored_per_row(flag: u8) -> bool {
    flag & COLUMN_FLAG_ROW != 0 && flag & COLUMN_FLAG_DEFAULT == 0
}

/// One more column of a schema.
pub open spec fn next_column(d: Seq<u8>, h: UtfHeader, st: SchemaModel) -> Result<
    SchemaModel,
    UtfError,
> {
    if 5 > remaining(d.len(), st.pos) {
        Err(UtfError::Io(IoError::UnexpectedEof))
    } else {
        let info = d[st.pos as int];
        let flag = info & COLUMN_FLAG_MASK;
        let typ = info & COLUMN_TYPE_MASK;
        let name_at = (h.strings_at() + u32_be(slice_at(d, st.pos + 1, 4))) as nat;
        if flag_refused(flag) {
            Err(UtfError::UnknownColumnFlag(flag))
        } else {
            match (string_at(d, name_at), type_width(typ)) {
                (None, _) => Err(UtfError::Io(IoError::UnexpectedEof)),
                (Some(name), None) => Err(UtfError::UnknownColumnType(typ)),
                (Some(name), Some(w)) => if flag & COLUMN_FLAG_DEFAULT != 0 {
                    match value_at(d, st.pos + 5, typ, h.strings_at(), h.data_at()) {
                        Err(e) => Err(e),
                        Ok(v) => Ok(
                            SchemaModel {
                                pos: st.pos + 5 + w,
                                row_width: st.row_width,
                                columns: st.columns.push(
                                    ColumnModel { flag, typ, name, offset: 0 },
                                ),
                                keys: st.keys,
                                constants: st.constants.insert(name, v),
                            },
                        ),
                    }
                } else if flag & COLUMN_FLAG_ROW != 0 {
                    Ok(
                        SchemaModel {
                            pos: st.pos + 5,
                            row_width: st.row_width + w,
                            columns: st.columns.push(
                                ColumnModel { flag, typ, name, offset: st.row_width as u32 },
                            ),
                            keys: st.keys.push(name),
                            constants: st.constants,
                        },
                    )
                } else {
                    Ok(
                        SchemaModel {
                            pos: st.pos + 5,
                            row_width: st.row_width,
                            columns: st.columns.push(ColumnModel { flag, typ, name, offset: 0 }),
                            keys: st.keys,
                            constants: st.constants,
                        },
                    )
                },
            }
        }
    }
}

/// The schema before its first column.
pub open spec fn empty_schema() -> SchemaModel {
    SchemaModel {
        pos: UTF_SCHEMA_OFFSET as nat,
        row_width: 0,
        columns: Seq::empty(),
        keys: Seq::empty(),
        constants: Map::empty(),
    }
}

/// The first `n` columns of a schema, or the first error among them.
pub open spec fn schema_of(d: Seq<u8>, h: UtfHeader, n: nat) -> Result<SchemaModel, UtfError>
    decreases n,
{
    if n == 0 {
        Ok(empty_schema())
    } else {
        match schema_of(d, h, (n - 1) as nat) {
            Err(e) => Err(e),
            Ok(st) => next_column(d, h, st),
        }
    }
}

/// A row after its first `n` columns: the constants, and over them the values
/// stored in the row.
pub open spec fn row_of(
    d: Seq<u8>,
    h: UtfHeader,
    st: SchemaModel,
    row: nat,
    n: nat,
) -> Result<Map<Seq<char>, ValueModel>, UtfError>
    decreases n,
{
    if n == 0 {
        Ok(st.constants)
    } else {
        match row_of(d, h, st, row, (n - 1) as nat) {
            Err(e) => Err(e),
            Ok(m) => {
                let c = st.columns[n - 1];
                if stored_per_row(c.flag) {
                    let pos = h.rows_at() as nat + row * (h.row_size as nat) + c.offset as nat;
                    match value_at(d, pos, c.typ, h.strings_at(), h.data_at()) {
                        Err(e) => Err(e),
                        Ok(v) => Ok(m.insert(c.name, v)),
                    }
                } else {
                    Ok(m)
                }
            },
        }
    }
}

/// The first `n` rows, or the first error among them.
pub open spec fn rows_of(d: Seq<u8>, h: UtfHeader, st: SchemaModel, n: nat) -> Result<
    Seq<Map<Seq<char>, ValueModel>>,
    UtfError,
>
    decreases n,
{
    if n == 0 {
        Ok(Seq::empty())
    } else {
        match rows_of(d, h, st, (n - 1) as nat) {
            Err(e) => Err(e),
            Ok(rows) => match row_of(d, h, st, (n - 1) as nat, st.columns.len()) {
                Err(e) => Err(e),
                Ok(m) => Ok(rows.push(m)),
            },
        }
    }
}

/// What a table holds.
pub struct UtfModel {
    pub header: UtfHeader,
    pub name: Seq<char>,
    pub keys: Seq<Seq<char>>,
    pub constants: Map<Seq<char>, ValueModel>,
    pub rows: Seq<Map<Seq<char>, ValueModel>>,
}

/// The table that bytes hold, or why they hold none. The header is read at
/// `pos`; everything else is found by offsets from the first byte.
pub open spec fn utf_table(d: Seq<u8>, pos: nat) -> Result<UtfModel, UtfError> {
    let left = remaining(d.len(), pos);
    if left < 4 {
        Err(UtfError::Io(IoError::UnexpectedEof))
    } else if u32_be(slice_at(d, pos, 4)) != UTF_MAGIC {
        Err(UtfError::BadMagic(u32_be(slice_at(d, pos, 4))))
    } else if left < 32 {
        Err(UtfError::Io(IoError::UnexpectedEof))
    } else {
        let h = utf_header(slice_at(d, pos, 32));
        match h.error() {
            Some(e) => Err(e),
            None => match string_at(d, (h.strings_at() + h.table_name_offset) as nat) {
                None => Err(UtfError::Io(IoError::UnexpectedEof)),
                Some(name) => match schema_of(d, h, h.number_of_fields as nat) {
                    Err(e) => Err(e),
                    Ok(st) => match rows_of(d, h, st, h.number_of_rows as nat) {
                        Err(e) => Err(e),
                        Ok(rows) => Ok(
                            UtfModel {
                                header: h,
                                name,
                                keys: st.keys,
                                constants: st.constants,
                                rows,
                            },
                        ),
                    },
                },
            },
        }
    }
}

/// UTF table.
#[derive(Debug)]
pub struct UtfTable {
    pub header: UtfHeader,
    pub name: String,
    pub dynamic_keys: Vec<String>,
    pub constants: ValueMap,
    pub rows: Vec<ValueMap>,
}

/// The texts of a list of strings.
pub open spec fn texts(v: Seq<String>) -> Seq<Seq<char>> {
    v.map_values(|s: String| s@)
}

/// The entries of a list of maps.
pub open spec fn all_entries(v: Seq<ValueMap>) -> Seq<Map<Seq<char>, ValueModel>> {
    v.map_values(|m: ValueMap| entries(m))
}

/// The models of a list of columns.
pub open spec fn column_models(v: Seq<ColumnSchema>) -> Seq<ColumnModel> {
    v.map_values(|c: ColumnSchema| c@)
}

impl View for UtfTable {
    type V = UtfModel;

    open spec fn view(&self) -> UtfModel {
        UtfModel {
            header: self.header,
            name: self.name@,
            keys: texts(self.dynamic_keys@),
            constants: entries(self.constants),
            rows: all_entries(self.rows@),
        }
    }
}

impl Clone for UtfTable {
    fn clone(&self) -> (r: Self)
        ensures
            r@ == self@,
    {
        let mut dynamic_keys: Vec<String> = Vec::new();
        let mut i: usize = 0;
        while i < self.dynamic_keys.len()
            invariant
                i <= self.dynamic_keys@.len(),
                dynamic_keys@.len() == i,
                forall|k: int| 0 <= k < i ==> (#[trigger] dynamic_keys@[k])@ == self.dynamic_keys@[k]@,
            decreases self.dynamic_keys@.len() - i,
        {
            dynamic_keys.push(self.dynamic_keys[i].clone());
            i += 1;
        }
        let mut rows: Vec<ValueMap> = Vec::new();
        let mut j: usize = 0;
        while j < self.rows.len()
            invariant
                j <= self.rows@.len(),
                rows@.len() == j,
                forall|k: int|
                    0 <= k < j ==> entries(#[trigger] rows@[k]) == entries(self.rows@[k]),
            decreases self.rows@.len() - j,
        {
            rows.push(value_map_clone(&self.rows[j]));
            j += 1;
        }
        let r = UtfTable {
            header: self.header,
            name: self.name.clone(),
            dynamic_keys,
            constants: value_map_clone(&self.constants),
            rows,
        };
        assert(texts(r.dynamic_keys@) =~= texts(self.dynamic_keys@));
        assert(all_entries(r.rows@) =~= all_entries(self.rows@));
        r
    }
}

/// Whether a result is what a model says.
pub open spec fn outcome<T, U>(r: Result<T, UtfError>, m: Result<U, UtfError>, same: bool) -> bool {
    match m {
        Ok(_) => r is Ok && same,
        Err(e) => r == Err::<T, UtfError>(e),
    }
}

/// Carries a read's failure over to a table error.
fn io<T>(r: Result<T, IoError>) -> (o: Result<T, UtfError>)
    ensures
        match r {
            Ok(v) => o == Ok::<T, UtfError>(v),
            Err(e) => o == Err::<T, UtfError>(UtfError::Io(e)),
        },
{
    match r {
        Ok(v) => Ok(v),
        Err(e) => Err(UtfError::Io(e)),
    }
}

/// The fields of a header, found from its start or from the whole data.
proof fn header_slices(d: Seq<u8>, p: nat)
    requires
        32 <= remaining(d.len(), p),
    ensures
        slice_at(d, p + 4, 4) == slice_at(d, p, 32).subrange(4, 8),
        slice_at(d, p + 8, 2) == slice_at(d, p, 32).subrange(8, 10),
        slice_at(d, p + 10, 2) == slice_at(d, p, 32).subrange(10, 12),
        slice_at(d, p + 12, 4) == slice_at(d, p, 32).subrange(12, 16),
        slice_at(d, p + 16, 4) == slice_at(d, p, 32).subrange(16, 20),
        slice_at(d, p + 20, 4) == slice_at(d, p, 32).subrange(20, 24),
        slice_at(d, p + 24, 2) == slice_at(d, p, 32).subrange(24, 26),
        slice_at(d, p + 26, 2) == slice_at(d, p, 32).subrange(26, 28),
        slice_at(d, p + 28, 4) == slice_at(d, p, 32).subrange(28, 32),
{
    let b = slice_at(d, p, 32);
    assert(slice_at(d, p + 4, 4) =~= b.subrange(4, 8));
    assert(slice_at(d, p + 8, 2) =~= b.subrange(8, 10));
    assert(slice_at(d, p + 10, 2) =~= b.subrange(10, 12));
    assert(slice_at(d, p + 12, 4) =~= b.subrange(12, 16));
    assert(slice_at(d, p + 16, 4) =~= b.subrange(16, 20));
    assert(slice_at(d, p + 20, 4) =~= b.subrange(20, 24));
    assert(slice_at(d, p + 24, 2) =~= b.subrange(24, 26));
    assert(slice_at(d, p + 26, 2) =~= b.subrange(26, 28));
    assert(slice_at(d, p + 28, 4) =~= b.subrange(28, 32));
}

impl UtfTable {
    /// Parse a UTF table from a reader.
    pub fn new(r: Cursor) -> (o: Result<Self, UtfError>)
        requires
            addressable(r.data().len()),
        ensures
            outcome(o, utf_table(r.data(), r.pos()), o->Ok_0@ == utf_table(r.data(), r.pos())->Ok_0),
    {
        let ghost d = r.data();
        let ghost p = r.pos();
        let mut buf = Reader::new(r);
        let magic: u32 = io(buf.read_u32())?;
        if magic != UTF_MAGIC {
            return Err(UtfError::BadMagic(magic));
        }
        let header = Self::read_header(&mut buf)?;
        proof {
            if 32 <= remaining(d.len(), p) {
                header_slices(d, p);
            }
        }
        header.check()?;
        let strings_at: u32 = wrapping_sum(header.string_table_offset, 8);
        let name = io(
            buf.read_string0_at(strings_at as u64 + header.table_name_offset as u64),
        )?;
        let (schema, dynamic_keys, constants) = Self::parse_schema(&mut buf, &header)?;
        let ghost st = schema_of(d, header, header.number_of_fields as nat)->Ok_0;
        let rows = Self::read_rows(&mut buf, &header, &schema, &constants, Ghost(st))?;
        Ok(UtfTable { header, name, dynamic_keys, constants, rows })
    }

    /// Reads the header fields after the magic number.
    fn read_header(buf: &mut Reader) -> (o: Result<UtfHeader, UtfError>)
        ensures
            final(buf).data() == old(buf).data(),
            ({
                let d = old(buf).data();
                let p = old(buf).pos();
                if 28 <= remaining(d.len(), p) {
                    o == Ok::<UtfHeader, UtfError>(
                        (UtfHeader {
                            table_size: u32_be(slice_at(d, p, 4)),
                            version: u16_be(slice_at(d, p + 4, 2)),
                            row_offset: u16_be(slice_at(d, p + 6, 2)),
                            string_table_offset: u32_be(slice_at(d, p + 8, 4)),
                            data_offset: u32_be(slice_at(d, p + 12, 4)),
                            table_name_offset: u32_be(slice_at(d, p + 16, 4)),
                            number_of_fields: u16_be(slice_at(d, p + 20, 2)),
                            row_size: u16_be(slice_at(d, p + 22, 2)),
                            number_of_rows: u32_be(slice_at(d, p + 24, 4)),
                        }),
                    )
                } else {
                    o == Err::<UtfHeader, UtfError>(UtfError::Io(IoError::UnexpectedEof))
                }
            }),
    {
        let table_size: u32 = io(buf.read_u32())?;
        let version: u16 = io(buf.read_u16())?;
        let row_offset: u16 = io(buf.read_u16())?;
        let string_table_offset: u32 = io(buf.read_u32())?;
        let data_offset: u32 = io(buf.read_u32())?;
        let table_name_offset: u32 = io(buf.read_u32())?;
        let number_of_fields: u16 = io(buf.read_u16())?;
        let row_size: u16 = io(buf.read_u16())?;
        let number_of_rows: u32 = io(buf.read_u32())?;
        Ok(
            UtfHeader {
                table_size,
                version,
                row_offset,
                string_table_offset,
                data_offset,
                table_name_offset,
                number_of_fields,
                row_size,
                number_of_rows,
            },
        )
    }

    /// The bytes that a value of a column type takes.
    fn column_value_size(typ: u8) -> (o: Result<u32, UtfError>)
        ensures
            match type_width(typ) {
                Some(w) => o == Ok::<u32, UtfError>(w as u32),
                None => o == Err::<u32, UtfError>(UtfError::UnknownColumnType(typ)),
            },
    {
        match typ {
            COLUMN_TYPE_1BYTE | COLUMN_TYPE_1BYTE2 => Ok(1),
            COLUMN_TYPE_2BYTE | COLUMN_TYPE_2BYTE2 => Ok(2),
            COLUMN_TYPE_4BYTE | COLUMN_TYPE_4BYTE2 | COLUMN_TYPE_FLOAT | COLUMN_TYPE_STRING => {
                Ok(4)
            },
            COLUMN_TYPE_8BYTE | COLUMN_TYPE_DATA => Ok(8),
            _ => Err(UtfError::UnknownColumnType(typ)),
        }
    }

    /// Reads the value at the current position and moves past it.
    fn read_column_value(
        buf: &mut Reader,
        type_key: u8,
        strings_at: u32,
        data_at: u32,
    ) -> (o: Result<Value, UtfError>)
        requires
            addressable(old(buf).data().len()),
        ensures
            final(buf).data() == old(buf).data(),
            ({
                let m = value_at(old(buf).data(), old(buf).pos(), type_key, strings_at, data_at);
                outcome(o, m, o->Ok_0@ == m->Ok_0)
            }),
            o is Ok ==> final(buf).pos() == old(buf).pos() + type_width(type_key)->Some_0,
    {
        let ghost d = buf.data();
        let ghost p = buf.pos();
        match type_key {
            COLUMN_TYPE_DATA => {
                proof {
                    let b = slice_at(d, p, 8);
                    if 8 <= remaining(d.len(), p) {
                        assert(slice_at(d, p, 4) =~= b.subrange(0, 4));
                        assert(slice_at(d, p + 4, 4) =~= b.subrange(4, 8));
                    }
                }
                let offset: u32 = io(buf.read_u32())?;
                let size: u32 = io(buf.read_u32())?;
                let at: u32 = wrapping_sum(data_at, offset);
                if size as u64 > buf.len() as u64 {
                    return Err(UtfError::Io(IoError::UnexpectedEof));
                }
                let data = io(buf.read_bytes_at(size as usize, at as u64))?;
                Ok(Value::Data(data))
            },
            COLUMN_TYPE_STRING => {
                let offset: u32 = io(buf.read_u32())?;
                let at: u32 = wrapping_sum(strings_at, offset);
                let s = io(buf.read_string0_at(at as u64))?;
                Ok(Value::String(s))
            },
            COLUMN_TYPE_FLOAT => {
                let v: u32 = io(buf.read_f32())?;
                Ok(Value::F32(v))
            },
            COLUMN_TYPE_8BYTE => {
                let v: u64 = io(buf.read_u64())?;
                Ok(Value::U64(v))
            },
            COLUMN_TYPE_4BYTE2 => {
                let v: i32 = io(buf.read_i32())?;
                Ok(Value::I32(v))
            },
            COLUMN_TYPE_4BYTE => {
                let v: u32 = io(buf.read_u32())?;
                Ok(Value::U32(v))
            },
            COLUMN_TYPE_2BYTE2 => {
                let v: i16 = io(buf.read_i16())?;
                Ok(Value::I16(v))
            },
            COLUMN_TYPE_2BYTE => {
                let v: u16 = io(buf.read_u16())?;
                Ok(Value::U16(v))
            },
            COLUMN_TYPE_1BYTE2 => {
                let v: i8 = io(buf.read_i8())?;
                Ok(Value::I8(v))
            },
            COLUMN_TYPE_1BYTE => {
                let v: u8 = io(buf.read_u8())?;
                Ok(Value::U8(v))
            },
            _ => Err(UtfError::UnknownColumnType(type_key)),
        }
    }

    /// Reads the columns of a schema: all of them, the names of the per-row
    /// ones, and the constants.
    fn parse_schema(buf: &mut Reader, header: &UtfHeader) -> (o: Result<
        (Vec<ColumnSchema>, Vec<String>, ValueMap),
        UtfError,
    >)
        requires
            addressable(old(buf).data().len()),
        ensures
            final(buf).data() == old(buf).data(),
            ({
                let m = schema_of(old(buf).data(), *header, header.number_of_fields as nat);
                outcome(
                    o,
                    m,
                    column_models(o->Ok_0.0@) == m->Ok_0.columns && texts(o->Ok_0.1@)
                        == m->Ok_0.keys && entries(o->Ok_0.2) == m->Ok_0.constants,
                )
            }),
    {
        let ghost d = buf.data();
        let ghost h = *header;
        let total: u16 = header.number_of_fields;
        let strings_at: u32 = wrapping_sum(header.string_table_offset, 8);
        let data_at: u32 = wrapping_sum(header.data_offset, 8);
        let _ = io(buf.seek(SeekFrom::Start(UTF_SCHEMA_OFFSET as u64)))?;
        let mut dynamic_keys: Vec<String> = Vec::new();
        let mut constants = value_map_new();
        let mut schema: Vec<ColumnSchema> = Vec::new();
        let mut row_column_offset: u32 = 0;
        let mut i: u16 = 0;
        assert(column_models(schema@) =~= empty_schema().columns);
        assert(texts(dynamic_keys@) =~= empty_schema().keys);
        while i < total
            invariant
                i <= total,
                total == h.number_of_fields,
                h == *header,
                buf.data() == d,
                d == old(buf).data(),
                addressable(d.len()),
                strings_at == h.strings_at(),
                data_at == h.data_at(),
                schema_of(d, h, i as nat) is Ok,
                buf.pos() == schema_of(d, h, i as nat)->Ok_0.pos,
                row_column_offset == schema_of(d, h, i as nat)->Ok_0.row_width,
                row_column_offset <= 8 * i,
                column_models(schema@) == schema_of(d, h, i as nat)->Ok_0.columns,
                texts(dynamic_keys@) == schema_of(d, h, i as nat)->Ok_0.keys,
                entries(constants) == schema_of(d, h, i as nat)->Ok_0.constants,
            decreases total - i,
        {
            let ghost st = schema_of(d, h, i as nat)->Ok_0;
            let ghost after = next_column(d, h, st);
            proof {
                assert(schema_of(d, h, (i + 1) as nat) == after);
                if after is Err {
                    schema_error_stays(d, h, (i + 1) as nat, total as nat);
                }
            }
            let info: u8 = io(buf.read_u8())?;
            let name_offset: u32 = io(buf.read_u32())?;
            let flag: u8 = info & COLUMN_FLAG_MASK;
            let typ: u8 = info & COLUMN_TYPE_MASK;
            if flag == 0 || (flag & COLUMN_FLAG_NAME) == 0 || (flag & COLUMN_FLAG_UNDEFINED) != 0 {
                return Err(UtfError::UnknownColumnFlag(flag));
            }
            let name = io(buf.read_string0_at(strings_at as u64 + name_offset as u64))?;
            let val_size: u32 = Self::column_value_size(typ)?;
            let mut offset: u32 = 0;
            if flag & COLUMN_FLAG_DEFAULT != 0 {
                let v = Self::read_column_value(buf, typ, strings_at, data_at)?;
                let _ = value_map_insert(&mut constants, name.clone(), v);
            } else if flag & COLUMN_FLAG_ROW != 0 {
                offset = row_column_offset;
                row_column_offset = row_column_offset + val_size;
                let ghost k = dynamic_keys@;
                dynamic_keys.push(name.clone());
                assert(texts(dynamic_keys@) =~= texts(k).push(name@));
            }
            let ghost c = schema@;
            let column = ColumnSchema { flag, typ, name, offset };
            schema.push(column);
            assert(column_models(schema@) =~= column_models(c).push(column@));
            i = i + 1;
        }
        Ok((schema, dynamic_keys, constants))
    }

    /// Reads all rows by a schema.
    fn read_rows(
        buf: &mut Reader,
        header: &UtfHeader,
        schema: &Vec<ColumnSchema>,
        constants: &ValueMap,
        Ghost(st): Ghost<SchemaModel>,
    ) -> (o: Result<Vec<ValueMap>, UtfError>)
        requires
            addressable(old(buf).data().len()),
            column_models(schema@) == st.columns,
            entries(*constants) == st.constants,
        ensures
            final(buf).data() == old(buf).data(),
            ({
                let m = rows_of(old(buf).data(), *header, st, header.number_of_rows as nat);
                outcome(o, m, all_entries(o->Ok_0@) == m->Ok_0)
            }),
    {
        let ghost d = buf.data();
        let ghost h = *header;
        let mut rows: Vec<ValueMap> = Vec::new();
        let total: u32 = header.number_of_rows;
        let mut i: u32 = 0;
        assert(all_entries(rows@) =~= Seq::empty());
        while i < total
            invariant
                i <= total,
                total == h.number_of_rows,
                h == *header,
                buf.data() == d,
                d == old(buf).data(),
                addressable(d.len()),
                column_models(schema@) == st.columns,
                entries(*constants) == st.constants,
                rows_of(d, h, st, i as nat) is Ok,
                all_entries(rows@) == rows_of(d, h, st, i as nat)->Ok_0,
            decreases total - i,
        {
            let ghost m = row_of(d, h, st, i as nat, st.columns.len());
            proof {
                if m is Err {
                    assert(rows_of(d, h, st, (i + 1) as nat) == Err::<
                        Seq<Map<Seq<char>, ValueModel>>,
                        UtfError,
                    >(m->Err_0));
                    rows_error_stays(d, h, st, (i + 1) as nat, total as nat);
                }
            }
            let row = Self::read_row(buf, header, schema, constants, i, Ghost(st))?;
            let ghost before = rows@;
            rows.push(row);
            assert(all_entries(rows@) =~= all_entries(before).push(entries(row)));
            assert(rows_of(d, h, st, (i + 1) as nat) is Ok);
            i = i + 1;
        }
        Ok(rows)
    }

    /// Reads one row by a schema.
    fn read_row(
        buf: &mut Reader,
        header: &UtfHeader,
        schema: &Vec<ColumnSchema>,
        constants: &ValueMap,
        row_idx: u32,
        Ghost(st): Ghost<SchemaModel>,
    ) -> (o: Result<ValueMap, UtfError>)
        requires
            addressable(old(buf).data().len()),
            column_models(schema@) == st.columns,
            entries(*constants) == st.constants,
        ensures
            final(buf).data() == old(buf).data(),
            ({
                let m = row_of(old(buf).data(), *header, st, row_idx as nat, st.columns.len());
                outcome(o, m, entries(o->Ok_0) == m->Ok_0)
            }),
    {
        let ghost d = buf.data();
        let ghost h = *header;
        let rows_at: u32 = wrapping_sum(header.row_offset as u32, 8);
        let strings_at: u32 = wrapping_sum(header.string_table_offset, 8);
        let data_at: u32 = wrapping_sum(header.data_offset, 8);
        let mut row = value_map_clone(constants);
        let mut k: usize = 0;
        while k < schema.len()
            invariant
                k <= schema@.len(),
                h == *header,
                buf.data() == d,
                d == old(buf).data(),
                addressable(d.len()),
                rows_at == h.rows_at(),
                rows_at <= 0x1_0008,
                strings_at == h.strings_at(),
                data_at == h.data_at(),
                column_models(schema@) == st.columns,
                row_of(d, h, st, row_idx as nat, k as nat) is Ok,
                entries(row) == row_of(d, h, st, row_idx as nat, k as nat)->Ok_0,
            decreases schema@.len() - k,
        {
            let col = &schema[k];
            let ghost c = st.columns[k as int];
            assert(c == col@);
            proof {
                if row_of(d, h, st, row_idx as nat, (k + 1) as nat) is Err {
                    row_error_stays(d, h, st, row_idx as nat, (k + 1) as nat, st.columns.len());
                }
            }
            if col.flag & COLUMN_FLAG_ROW != 0 && col.flag & COLUMN_FLAG_DEFAULT == 0 {
                assert(row_idx * header.row_size <= 0xFFFF_FFFF * 0xFFFF) by (nonlinear_arith)
                    requires
                        row_idx <= 0xFFFF_FFFF,
                        header.row_size <= 0xFFFF,
                ;
                let row_start: u64 = rows_at as u64 + row_idx as u64 * header.row_size as u64;
                let field_pos: u64 = row_start + col.offset as u64;
                let _ = io(buf.seek(SeekFrom::Start(field_pos)))?;
                assert(buf.pos() == h.rows_at() as nat + row_idx as nat * (h.row_size as nat)
                    + c.offset as nat);
                let v = Self::read_column_value(buf, col.typ, strings_at, data_at)?;
                let _ = value_map_insert(&mut row, col.name.clone(), v);
            }
            k = k + 1;
        }
        Ok(row)
    }
}

/// An error in an early column is the error of the whole schema.
proof fn schema_error_stays(d: Seq<u8>, h: UtfHeader, n: nat, m: nat)
    requires
        schema_of(d, h, n) is Err,
        n <= m,
    ensures
        schema_of(d, h, m) == schema_of(d, h, n),
    decreases m,
{
    if n < m {
        schema_error_stays(d, h, n, (m - 1) as nat);
    }
}

/// An error in an early column is the error of the whole row.
proof fn row_error_stays(d: Seq<u8>, h: UtfHeader, st: SchemaModel, row: nat, n: nat, m: nat)
    requires
        row_of(d, h, st, row, n) is Err,
        n <= m,
    ensures
        row_of(d, h, st, row, m) == row_of(d, h, st, row, n),
    decreases m,
{
    if n < m {
        row_error_stays(d, h, st, row, n, (m - 1) as nat);
    }
}

/// An error in an early row is the error of all rows.
proof fn rows_error_stays(d: Seq<u8>, h: UtfHeader, st: SchemaModel, n: nat, m: nat)
    requires
        rows_of(d, h, st, n) is Err,
        n <= m,
    ensures
        rows_of(d, h, st, m) == rows_of(d, h, st, n),
    decreases m,
{
    if n < m {
        rows_error_stays(d, h, st, n, (m - 1) as nat);
    }
}

} // verus!
