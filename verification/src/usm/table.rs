//! The tables of a USM container, and where its header chunks hold them.

use vstd::prelude::*;
use vstd::utf8::encode_utf8;
use crate::bytes::{i16_of, i32_of, i8_of, same_bytes, u16_be, u32_be, u64_be};
use crate::reader::{
    addressable, aligned, remaining, slice_at, text_end, utf8_lossy, Cursor, IoError, Reader,
    SeekFrom,
};
use crate::str_map::StrMap;

verus! {

pub const COLUMN_STORAGE_CONSTANT: u8 = 0x30;

pub const COLUMN_STORAGE_CONSTANT2: u8 = 0x70;

pub const COLUMN_TYPE_DATA: u8 = 0x0B;

pub const COLUMN_TYPE_STRING: u8 = 0x0A;

pub const COLUMN_TYPE_FLOAT: u8 = 0x08;

pub const COLUMN_TYPE_8BYTE: u8 = 0x06;

pub const COLUMN_TYPE_4BYTE2: u8 = 0x05;

pub const COLUMN_TYPE_4BYTE: u8 = 0x04;

pub const COLUMN_TYPE_2BYTE2: u8 = 0x03;

pub const COLUMN_TYPE_2BYTE: u8 = 0x02;

pub const COLUMN_TYPE_1BYTE2: u8 = 0x01;

pub const COLUMN_TYPE_1BYTE: u8 = 0x00;

/// Why a container could not be read.
#[derive(Debug)]
pub enum UsmError {
    Io(IoError),
    InvalidCridSignature,
    InvalidUtfSignature,
    /// Another chunk signature was expected.
    ExpectedSignature(String),
    /// Another marker was expected.
    ExpectedMarker(String),
    UnknownColumnType(u8),
}

/// What an error says.
pub enum UsmFault {
    Io(IoError),
    InvalidCridSignature,
    InvalidUtfSignature,
    ExpectedSignature(Seq<char>),
    ExpectedMarker(Seq<char>),
    UnknownColumnType(u8),
}

impl View for UsmError {
    type V = UsmFault;

    open spec fn view(&self) -> UsmFault {
        match *self {
            UsmError::Io(e) => UsmFault::Io(e),
            UsmError::InvalidCridSignature => UsmFault::InvalidCridSignature,
            UsmError::InvalidUtfSignature => UsmFault::InvalidUtfSignature,
            UsmError::ExpectedSignature(s) => UsmFault::ExpectedSignature(s@),
            UsmError::ExpectedMarker(s) => UsmFault::ExpectedMarker(s@),
            UsmError::UnknownColumnType(t) => UsmFault::UnknownColumnType(t),
        }
    }
}

/// The data ended too early.
pub open spec fn ended() -> UsmFault {
    UsmFault::Io(IoError::UnexpectedEof)
}

/// A value from a table row. A single-precision number is held by its bits.
#[derive(Debug, Clone)]
pub enum UtfValue {
    Byte(u8),
    SByte(i8),
    UShort(u16),
    Short(i16),
    UInt(u32),
    Int(i32),
    ULong(u64),
    Float(u32),
    String(Vec<u8>),
    Data(Vec<u8>),
}

/// What a value holds.
#[verifier::ext_equal]
pub enum UtfModel {
    Byte(u8),
    SByte(i8),
    UShort(u16),
    Short(i16),
    UInt(u32),
    Int(i32),
    ULong(u64),
    Float(u32),
    String(Seq<u8>),
    Data(Seq<u8>),
}

impl View for UtfValue {
    type V = UtfModel;

    open spec fn view(&self) -> UtfModel {
        match *self {
            UtfValue::Byte(v) => UtfModel::Byte(v),
            UtfValue::SByte(v) => UtfModel::SByte(v),
            UtfValue::UShort(v) => UtfModel::UShort(v),
            UtfValue::Short(v) => UtfModel::Short(v),
            UtfValue::UInt(v) => UtfModel::UInt(v),
            UtfValue::Int(v) => UtfModel::Int(v),
            UtfValue::ULong(v) => UtfModel::ULong(v),
            UtfValue::Float(v) => UtfModel::Float(v),
            UtfValue::String(v) => UtfModel::String(v@),
            UtfValue::Data(v) => UtfModel::Data(v@),
        }
    }
}

impl UtfValue {
    /// The same value again.
    pub fn duplicate(&self) -> (r: Self)
        ensures
            r@ == self@,
    {
        match self {
            UtfValue::Byte(v) => UtfValue::Byte(*v),
            UtfValue::SByte(v) => UtfValue::SByte(*v),
            UtfValue::UShort(v) => UtfValue::UShort(*v),
            UtfValue::Short(v) => UtfValue::Short(*v),
            UtfValue::UInt(v) => UtfValue::UInt(*v),
            UtfValue::Int(v) => UtfValue::Int(*v),
            UtfValue::ULong(v) => UtfValue::ULong(*v),
            UtfValue::Float(v) => UtfValue::Float(*v),
            UtfValue::String(v) => UtfValue::String(crate::bytes::copy_bytes(v.as_slice())),
            UtfValue::Data(v) => UtfValue::Data(crate::bytes::copy_bytes(v.as_slice())),
        }
    }
}

/// A row of a table.
pub type UtfRow = StrMap<UtfValue>;

/// The rows of a table.
pub type UtfTable = Vec<UtfRow>;

/// What a row holds.
pub type RowModel = Map<Seq<char>, UtfModel>;

/// What a row holds.
pub open spec fn row_model(row: Map<Seq<char>, UtfValue>) -> RowModel {
    row.map_values(|v: UtfValue| v@)
}

/// What the rows of a table hold.
pub open spec fn rows_model(rows: Seq<UtfRow>) -> Seq<RowModel> {
    Seq::new(rows.len(), |i: int| row_model(rows[i]@))
}

/// A table with its name.
#[derive(Debug)]
pub struct DetailedUtfTable {
    pub name: String,
    pub rows: UtfTable,
}

/// What a table holds.
pub struct TableModel {
    pub name: Seq<char>,
    pub rows: Seq<RowModel>,
}

impl View for DetailedUtfTable {
    type V = TableModel;

    open spec fn view(&self) -> TableModel {
        TableModel { name: self.name@, rows: rows_model(self.rows@) }
    }
}

/// A column of a table: its name, the type of its values, and the value of
/// every row where it is constant.
struct FieldInfo {
    name: String,
    column_type: u8,
    constant: Option<UtfValue>,
}

/// What a column is.
pub struct FieldModel {
    pub name: Seq<char>,
    pub column_type: u8,
    pub constant: Option<UtfModel>,
}

impl FieldInfo {
    spec fn model(&self) -> FieldModel {
        FieldModel {
            name: self.name@,
            column_type: self.column_type,
            constant: match self.constant {
                Some(v) => Some(v@),
                None => None,
            },
        }
    }
}

spec fn fields_model(fields: Seq<FieldInfo>) -> Seq<FieldModel> {
    Seq::new(fields.len(), |i: int| fields[i].model())
}

/// The 64-bit position of an offset; a negative one lies behind all data.
pub open spec fn wrap64(v: int) -> nat {
    (v % 0x1_0000_0000_0000_0000) as nat
}

/// The position of an offset as a 64-bit word.
pub(crate) fn position_of(v: i64) -> (r: u64)
    ensures
        r == wrap64(v as int),
{
    if v >= 0 {
        v as u64
    } else {
        (v as i128 + 0x1_0000_0000_0000_0000) as u64
    }
}

/// The bytes that a cell of the given type takes in a row.
pub open spec fn cell_width(column_type: u8) -> Option<nat> {
    if column_type == COLUMN_TYPE_DATA || column_type == COLUMN_TYPE_8BYTE {
        Some(8)
    } else if column_type == COLUMN_TYPE_STRING || column_type == COLUMN_TYPE_FLOAT || column_type
        == COLUMN_TYPE_4BYTE2 || column_type == COLUMN_TYPE_4BYTE {
        Some(4)
    } else if column_type == COLUMN_TYPE_2BYTE2 || column_type == COLUMN_TYPE_2BYTE {
        Some(2)
    } else if column_type == COLUMN_TYPE_1BYTE2 || column_type == COLUMN_TYPE_1BYTE {
        Some(1)
    } else {
        None
    }
}

/// The value of the cell at `pos`. Strings and blobs lie at offsets counted
/// from 24 bytes before the start of their areas.
pub open spec fn cell_value(
    d: Seq<u8>,
    pos: nat,
    column_type: u8,
    strings: int,
    data: int,
) -> Result<UtfModel, UsmFault> {
    match cell_width(column_type) {
        None => Err(UsmFault::UnknownColumnType(column_type)),
        Some(w) => {
            let b = slice_at(d, pos, w);
            if w > remaining(d.len(), pos) {
                Err(ended())
            } else if column_type == COLUMN_TYPE_DATA {
                let at = wrap64(data + u32_be(b) - 24);
                let size = u32_be(b.subrange(4, 8)) as nat;
                if size <= remaining(d.len(), at) {
                    Ok(UtfModel::Data(slice_at(d, at, size)))
                } else {
                    Err(ended())
                }
            } else if column_type == COLUMN_TYPE_STRING {
                let at = wrap64(strings + u32_be(b) - 24);
                match text_end(d, at) {
                    Some(z) => Ok(UtfModel::String(d.subrange(at as int, z as int))),
                    None => Err(ended()),
                }
            } else if column_type == COLUMN_TYPE_FLOAT {
                Ok(UtfModel::Float(u32_be(b)))
            } else if column_type == COLUMN_TYPE_8BYTE {
                Ok(UtfModel::ULong(u64_be(b)))
            } else if column_type == COLUMN_TYPE_4BYTE2 {
                Ok(UtfModel::Int(i32_of(u32_be(b))))
            } else if column_type == COLUMN_TYPE_4BYTE {
                Ok(UtfModel::UInt(u32_be(b)))
            } else if column_type == COLUMN_TYPE_2BYTE2 {
                Ok(UtfModel::Short(i16_of(u16_be(b))))
            } else if column_type == COLUMN_TYPE_2BYTE {
                Ok(UtfModel::UShort(u16_be(b)))
            } else if column_type == COLUMN_TYPE_1BYTE2 {
                Ok(UtfModel::SByte(i8_of(b[0])))
            } else {
                Ok(UtfModel::Byte(b[0]))
            }
        },
    }
}

/// Where a reader stands after the cell at `pos` was read or failed to be.
pub open spec fn cell_end(
    d: Seq<u8>,
    pos: nat,
    column_type: u8,
    strings: int,
    data: int,
) -> nat {
    match cell_value(d, pos, column_type, strings, data) {
        Ok(_) => pos + cell_width(column_type)->Some_0,
        Err(UsmFault::UnknownColumnType(_)) => pos,
        Err(_) => d.len(),
    }
}

/// An offset from which 24 can be taken and to which a 32-bit word can be
/// added.
pub open spec fn offset_ok(v: i64) -> bool {
    i64::MIN + 24 <= v <= i64::MAX - u32::MAX
}

/// Whether a result is what the model says: the same value, or the same fault.
pub open spec fn same_value(r: Result<UtfValue, UsmError>, m: Result<UtfModel, UsmFault>) -> bool {
    match (r, m) {
        (Ok(v), Ok(w)) => v@ == w,
        (Err(e), Err(f)) => e@ == f,
        _ => false,
    }
}

/// Reads a cell that points at a blob.
fn read_data_cell(reader: &mut Reader, data_offset: i64, other: Ghost<int>) -> (r: Result<
    UtfValue,
    UsmError,
>)
    requires
        offset_ok(data_offset),
    ensures
        final(reader).data() == old(reader).data(),
        same_value(
            r,
            cell_value(
                old(reader).data(),
                old(reader).pos(),
                COLUMN_TYPE_DATA,
                other@,
                data_offset as int,
            ),
        ),
        final(reader).pos() == cell_end(
            old(reader).data(),
            old(reader).pos(),
            COLUMN_TYPE_DATA,
            other@,
            data_offset as int,
        ),
{
    let ghost d = reader.data();
    let ghost p = reader.pos();
    let offset: u32 = match reader.read_u32() {
        Ok(v) => v,
        Err(e) => { return Err(UsmError::Io(e)); },
    };
    let size: u32 = match reader.read_u32() {
        Ok(v) => v,
        Err(e) => { return Err(UsmError::Io(e)); },
    };
    proof {
        let b = slice_at(d, p, 8);
        assert(u32_be(b) == u32_be(slice_at(d, p, 4)));
        assert(b.subrange(4, 8) =~= slice_at(d, p + 4, 4));
    }
    let current_pos: u64 = match reader.stream_position() {
        Ok(v) => v,
        Err(e) => { return Err(UsmError::Io(e)); },
    };
    let at: u64 = position_of(data_offset - 24 + offset as i64);
    let _ = reader.seek(SeekFrom::Start(at));
    let data = match reader.read_bytes(size as usize) {
        Ok(v) => v,
        Err(e) => { return Err(UsmError::Io(e)); },
    };
    let _ = reader.seek(SeekFrom::Start(current_pos));
    Ok(UtfValue::Data(data))
}

/// Reads a cell that points at a string.
fn read_string_cell(
    reader: &mut Reader,
    string_table_offset: i64,
    other: Ghost<int>,
) -> (r: Result<UtfValue, UsmError>)
    requires
        offset_ok(string_table_offset),
    ensures
        final(reader).data() == old(reader).data(),
        same_value(
            r,
            cell_value(
                old(reader).data(),
                old(reader).pos(),
                COLUMN_TYPE_STRING,
                string_table_offset as int,
                other@,
            ),
        ),
        final(reader).pos() == cell_end(
            old(reader).data(),
            old(reader).pos(),
            COLUMN_TYPE_STRING,
            string_table_offset as int,
            other@,
        ),
{
    let offset: u32 = match reader.read_u32() {
        Ok(v) => v,
        Err(e) => { return Err(UsmError::Io(e)); },
    };
    let current_pos: u64 = match reader.stream_position() {
        Ok(v) => v,
        Err(e) => { return Err(UsmError::Io(e)); },
    };
    let at: u64 = position_of(string_table_offset - 24 + offset as i64);
    let _ = reader.seek(SeekFrom::Start(at));
    let s = match read_cstring(reader) {
        Ok(v) => v,
        Err(e) => { return Err(UsmError::Io(e)); },
    };
    let _ = reader.seek(SeekFrom::Start(current_pos));
    Ok(UtfValue::String(s))
}

/// Read column data from a UTF table
pub fn read_column_data(
    reader: &mut Reader,
    column_type: u8,
    string_table_offset: i64,
    data_offset: i64,
) -> (r: Result<UtfValue, UsmError>)
    requires
        offset_ok(string_table_offset),
        offset_ok(data_offset),
    ensures
        final(reader).data() == old(reader).data(),
        same_value(
            r,
            cell_value(
                old(reader).data(),
                old(reader).pos(),
                column_type,
                string_table_offset as int,
                data_offset as int,
            ),
        ),
        final(reader).pos() == cell_end(
            old(reader).data(),
            old(reader).pos(),
            column_type,
            string_table_offset as int,
            data_offset as int,
        ),
{
    if column_type == COLUMN_TYPE_DATA {
        return read_data_cell(reader, data_offset, Ghost(string_table_offset as int));
    }
    if column_type == COLUMN_TYPE_STRING {
        return read_string_cell(reader, string_table_offset, Ghost(data_offset as int));
    }
    if column_type == COLUMN_TYPE_FLOAT {
        return match reader.read_f32() {
            Ok(v) => Ok(UtfValue::Float(v)),
            Err(e) => Err(UsmError::Io(e)),
        };
    }
    if column_type == COLUMN_TYPE_8BYTE {
        return match reader.read_u64() {
            Ok(v) => Ok(UtfValue::ULong(v)),
            Err(e) => Err(UsmError::Io(e)),
        };
    }
    if column_type == COLUMN_TYPE_4BYTE2 {
        return match reader.read_i32() {
            Ok(v) => Ok(UtfValue::Int(v)),
            Err(e) => Err(UsmError::Io(e)),
        };
    }
    if column_type == COLUMN_TYPE_4BYTE {
        return match reader.read_u32() {
            Ok(v) => Ok(UtfValue::UInt(v)),
            Err(e) => Err(UsmError::Io(e)),
        };
    }
    if column_type == COLUMN_TYPE_2BYTE2 {
        return match reader.read_i16() {
            Ok(v) => Ok(UtfValue::Short(v)),
            Err(e) => Err(UsmError::Io(e)),
        };
    }
    if column_type == COLUMN_TYPE_2BYTE {
        return match reader.read_u16() {
            Ok(v) => Ok(UtfValue::UShort(v)),
            Err(e) => Err(UsmError::Io(e)),
        };
    }
    if column_type == COLUMN_TYPE_1BYTE2 {
        return match reader.read_i8() {
            Ok(v) => Ok(UtfValue::SByte(v)),
            Err(e) => Err(UsmError::Io(e)),
        };
    }
    if column_type == COLUMN_TYPE_1BYTE {
        return match reader.read_u8() {
            Ok(v) => Ok(UtfValue::Byte(v)),
            Err(e) => Err(UsmError::Io(e)),
        };
    }
    Err(UsmError::UnknownColumnType(column_type))
}

/// Read null-terminated C string as bytes
pub fn read_cstring(reader: &mut Reader) -> (r: Result<Vec<u8>, IoError>)
    ensures
        final(reader).data() == old(reader).data(),
        match text_end(old(reader).data(), old(reader).pos()) {
            Some(z) => {
                &&& r is Ok
                &&& r->Ok_0@ == old(reader).data().subrange(old(reader).pos() as int, z as int)
                &&& final(reader).pos() == z + 1
            },
            None => {
                &&& r == Err::<Vec<u8>, IoError>(IoError::UnexpectedEof)
                &&& final(reader).pos() == old(reader).data().len()
            },
        },
{
    let ghost d = reader.data();
    let ghost start = reader.pos();
    let mut buf: Vec<u8> = Vec::new();
    loop
        invariant
            reader.data() == d,
            start <= reader.pos(),
            reader.pos() <= d.len() || reader.pos() == start,
            buf@.len() == reader.pos() - start,
            reader.pos() <= d.len() ==> buf@ == d.subrange(start as int, reader.pos() as int),
            text_end(d, start) == text_end(d, reader.pos()),
            start == old(reader).pos(),
            d == old(reader).data(),
        decreases remaining(d.len(), reader.pos()),
    {
        let ghost p = reader.pos();
        let b = match reader.read_u8() {
            Ok(b) => b,
            Err(e) => {
                return Err(e);
            },
        };
        if b == 0 {
            assert(text_end(d, p) == Some(p));
            return Ok(buf);
        }
        buf.push(b);
        assert(d.subrange(start as int, p as int).push(b) =~= d.subrange(
            start as int,
            reader.pos() as int,
        ));
    }
}

proof fn text_end_lies(d: Seq<u8>, pos: nat)
    ensures
        text_end(d, pos) is Some ==> pos <= text_end(d, pos)->Some_0 < d.len(),
    decreases d.len() - pos,
{
    if pos < d.len() && d[pos as int] != 0 {
        text_end_lies(d, pos + 1);
    }
}

/// Align stream to boundary
pub fn align_stream(reader: &mut Reader, alignment: u64) -> (r: Result<u64, IoError>)
    requires
        0 < alignment <= i64::MAX,
    ensures
        final(reader).data() == old(reader).data(),
        ({
            let target = aligned(alignment as int, old(reader).pos() as int);
            if target <= u64::MAX {
                r == Ok::<u64, IoError>(target as u64) && final(reader).pos() == target
            } else {
                r == Err::<u64, IoError>(IoError::InvalidSeek) && final(reader).pos() == old(
                    reader,
                ).pos()
            }
        }),
{
    let pos: u64 = match reader.stream_position() {
        Ok(v) => v,
        Err(e) => {
            return Err(e);
        },
    };
    let rest: u64 = pos % alignment;
    proof {
        next_multiple(alignment as int, pos as int);
    }
    if rest != 0 {
        reader.seek(SeekFrom::Current((alignment - rest) as i64))
    } else {
        Ok(pos)
    }
}

proof fn next_multiple(alignment: int, pos: int)
    requires
        0 < alignment,
        0 <= pos,
    ensures
        aligned(alignment, pos) == if pos % alignment == 0 { pos } else {
            pos + alignment - pos % alignment
        },
{
    let q = pos / alignment;
    let m = pos % alignment;
    vstd::arithmetic::div_mod::lemma_fundamental_div_mod(pos, alignment);
    vstd::arithmetic::div_mod::lemma_mod_bound(pos, alignment);
    let x = pos + alignment - 1;
    if m == 0 {
        vstd::arithmetic::div_mod::lemma_fundamental_div_mod_converse(x, alignment, q, alignment - 1);
        assert(q * alignment == pos) by (nonlinear_arith)
            requires
                pos == alignment * q + m,
                m == 0,
        ;
    } else {
        assert(x == alignment * (q + 1) + (m - 1)) by (nonlinear_arith)
            requires
                x == pos + alignment - 1,
                pos == alignment * q + m,
        ;
        vstd::arithmetic::div_mod::lemma_fundamental_div_mod_converse(x, alignment, q + 1, m - 1);
        assert((q + 1) * alignment == pos + alignment - m) by (nonlinear_arith)
            requires
                pos == alignment * q + m,
        ;
    }
}

/// The head of a table: the bytes behind the first eight, then where rows,
/// strings, blobs and its name lie, and how many columns and rows there are.
pub struct TableHead {
    pub table_size: u32,
    pub row_offset: u16,
    pub string_table_offset: u32,
    pub data_offset: u32,
    pub table_name_offset: u32,
    pub number_of_fields: u16,
    pub number_of_rows: u32,
}

/// The head in the first 32 bytes of a table.
pub open spec fn table_head(b: Seq<u8>) -> TableHead {
    TableHead {
        table_size: u32_be(b.subrange(4, 8)),
        row_offset: u16_be(b.subrange(10, 12)),
        string_table_offset: u32_be(b.subrange(12, 16)),
        data_offset: u32_be(b.subrange(16, 20)),
        table_name_offset: u32_be(b.subrange(20, 24)),
        number_of_fields: u16_be(b.subrange(24, 26)),
        number_of_rows: u32_be(b.subrange(28, 32)),
    }
}

/// The bytes behind the head of a table, modulo 2^32.
pub open spec fn body_size(head: TableHead) -> nat {
    ((head.table_size - 24) % 0x1_0000_0000) as nat
}

/// The head of the table at `pos`, and the bytes behind it.
pub open spec fn table_frame(d: Seq<u8>, pos: nat) -> Result<(TableHead, Seq<u8>), UsmFault> {
    let left = remaining(d.len(), pos);
    if left < 4 {
        Err(ended())
    } else if slice_at(d, pos, 4) != encode_utf8("@UTF"@) {
        Err(UsmFault::InvalidUtfSignature)
    } else if left < 32 {
        Err(ended())
    } else {
        let head = table_head(slice_at(d, pos, 32));
        if body_size(head) > remaining(d.len(), pos + 32) {
            Err(ended())
        } else {
            Ok((head, slice_at(d, pos + 32, body_size(head))))
        }
    }
}

/// Where a reader stands after the table at `pos` was read or failed to be.
pub open spec fn table_end(d: Seq<u8>, pos: nat) -> nat {
    match table_frame(d, pos) {
        Ok((head, _)) => pos + 32 + body_size(head),
        Err(UsmFault::InvalidUtfSignature) => pos + 4,
        Err(_) => d.len(),
    }
}

/// The text up to a zero byte, from 24 bytes before `at` on.
pub open spec fn text_from(body: Seq<u8>, at: int) -> Result<Seq<char>, UsmFault> {
    match text_end(body, wrap64(at - 24)) {
        Some(z) => Ok(utf8_lossy(body.subrange(wrap64(at - 24) as int, z as int))),
        None => Err(ended()),
    }
}

/// Whether a column flag says that all rows share one value.
pub open spec fn is_constant(flag: u8) -> bool {
    flag / 0x10 * 0x10 == COLUMN_STORAGE_CONSTANT || flag / 0x10 * 0x10 == COLUMN_STORAGE_CONSTANT2
}

/// The column described at `p`, and where the next one is described.
pub open spec fn field_at(body: Seq<u8>, p: nat, head: TableHead) -> Result<
    (FieldModel, nat),
    UsmFault,
> {
    if remaining(body.len(), p) < 5 {
        Err(ended())
    } else {
        let flag = body[p as int];
        let column_type = flag % 0x10;
        let offset = u32_be(slice_at(body, p + 1, 4));
        let strings = head.string_table_offset as int;
        match text_from(body, strings + offset) {
            Err(f) => Err(f),
            Ok(name) => if is_constant(flag) {
                match cell_value(body, p + 5, column_type, strings, head.data_offset as int) {
                    Err(f) => Err(f),
                    Ok(v) => Ok(
                        (
                            FieldModel { name, column_type, constant: Some(v) },
                            p + 5 + cell_width(column_type)->Some_0,
                        ),
                    ),
                }
            } else {
                Ok((FieldModel { name, column_type, constant: None }, p + 5))
            },
        }
    }
}

/// The first `n` columns, and where the next one is described.
pub open spec fn fields_upto(body: Seq<u8>, n: nat, head: TableHead) -> Result<
    (Seq<FieldModel>, nat),
    UsmFault,
>
    decreases n,
{
    if n == 0 {
        Ok((Seq::empty(), 0))
    } else {
        match fields_upto(body, (n - 1) as nat, head) {
            Err(f) => Err(f),
            Ok((fields, p)) => match field_at(body, p, head) {
                Err(f) => Err(f),
                Ok((field, q)) => Ok((fields.push(field), q)),
            },
        }
    }
}

/// The cells of the first `k` columns of the row at `p`, and where the next
/// cell lies.
pub open spec fn row_upto(
    body: Seq<u8>,
    fields: Seq<FieldModel>,
    k: nat,
    p: nat,
    head: TableHead,
) -> Result<(RowModel, nat), UsmFault>
    decreases k,
{
    if k == 0 {
        Ok((Map::empty(), p))
    } else {
        match row_upto(body, fields, (k - 1) as nat, p, head) {
            Err(f) => Err(f),
            Ok((row, q)) => {
                let field = fields[k - 1];
                match field.constant {
                    Some(v) => Ok((row.insert(field.name, v), q)),
                    None => match cell_value(
                        body,
                        q,
                        field.column_type,
                        head.string_table_offset as int,
                        head.data_offset as int,
                    ) {
                        Err(f) => Err(f),
                        Ok(v) => Ok(
                            (
                                row.insert(field.name, v),
                                q + cell_width(field.column_type)->Some_0,
                            ),
                        ),
                    },
                }
            },
        }
    }
}

/// The first `n` rows, and where the next one starts.
pub open spec fn rows_upto(
    body: Seq<u8>,
    fields: Seq<FieldModel>,
    n: nat,
    head: TableHead,
) -> Result<(Seq<RowModel>, nat), UsmFault>
    decreases n,
{
    if n == 0 {
        Ok((Seq::empty(), wrap64(head.row_offset - 24)))
    } else {
        match rows_upto(body, fields, (n - 1) as nat, head) {
            Err(f) => Err(f),
            Ok((rows, p)) => match row_upto(body, fields, fields.len(), p, head) {
                Err(f) => Err(f),
                Ok((row, q)) => Ok((rows.push(row), q)),
            },
        }
    }
}

/// The rows of a table.
pub open spec fn table_rows(head: TableHead, body: Seq<u8>) -> Result<Seq<RowModel>, UsmFault> {
    match fields_upto(body, head.number_of_fields as nat, head) {
        Err(f) => Err(f),
        Ok((fields, _)) => match rows_upto(body, fields, head.number_of_rows as nat, head) {
            Err(f) => Err(f),
            Ok((rows, _)) => Ok(rows),
        },
    }
}

/// The name of a table.
pub open spec fn table_name(head: TableHead, body: Seq<u8>) -> Result<Seq<char>, UsmFault> {
    text_from(body, head.string_table_offset + head.table_name_offset)
}

/// The rows of the table at `pos`.
pub open spec fn utf_table_at(d: Seq<u8>, pos: nat) -> Result<Seq<RowModel>, UsmFault> {
    match table_frame(d, pos) {
        Err(f) => Err(f),
        Ok((head, body)) => table_rows(head, body),
    }
}

/// The table at `pos` with its name.
pub open spec fn detailed_table_at(d: Seq<u8>, pos: nat) -> Result<TableModel, UsmFault> {
    match table_frame(d, pos) {
        Err(f) => Err(f),
        Ok((head, body)) => match table_name(head, body) {
            Err(f) => Err(f),
            Ok(name) => match table_rows(head, body) {
                Err(f) => Err(f),
                Ok(rows) => Ok(TableModel { name, rows }),
            },
        },
    }
}

/// A table that can be read with its name has the same rows without it.
pub proof fn name_keeps_rows(d: Seq<u8>, pos: nat)
    ensures
        detailed_table_at(d, pos) is Ok ==> utf_table_at(d, pos) == Ok::<Seq<RowModel>, UsmFault>(
            detailed_table_at(d, pos)->Ok_0.rows,
        ),
        utf_table_at(d, pos) is Err ==> detailed_table_at(d, pos) is Err,
{
}

proof fn fields_fail(body: Seq<u8>, n: nat, m: nat, head: TableHead)
    requires
        n <= m,
        fields_upto(body, n, head) is Err,
    ensures
        fields_upto(body, m, head) == fields_upto(body, n, head),
    decreases m,
{
    if n < m {
        fields_fail(body, n, (m - 1) as nat, head);
    }
}

proof fn row_fails(body: Seq<u8>, fields: Seq<FieldModel>, n: nat, m: nat, p: nat, head: TableHead)
    requires
        n <= m,
        row_upto(body, fields, n, p, head) is Err,
    ensures
        row_upto(body, fields, m, p, head) == row_upto(body, fields, n, p, head),
    decreases m,
{
    if n < m {
        row_fails(body, fields, n, (m - 1) as nat, p, head);
    }
}

proof fn rows_fail(body: Seq<u8>, fields: Seq<FieldModel>, n: nat, m: nat, head: TableHead)
    requires
        n <= m,
        rows_upto(body, fields, n, head) is Err,
    ensures
        rows_upto(body, fields, m, head) == rows_upto(body, fields, n, head),
    decreases m,
{
    if n < m {
        rows_fail(body, fields, n, (m - 1) as nat, head);
    }
}

/// Reads the head of a table and the bytes behind it.
fn read_frame(reader: &mut Reader) -> (r: Result<(TableHead, Vec<u8>), UsmError>)
    ensures
        final(reader).data() == old(reader).data(),
        match (r, table_frame(old(reader).data(), old(reader).pos())) {
            (Ok(v), Ok(w)) => v.0 == w.0 && v.1@ == w.1,
            (Err(e), Err(f)) => e@ == f,
            _ => false,
        },
        final(reader).pos() == table_end(old(reader).data(), old(reader).pos()),
{
    let ghost d = reader.data();
    let ghost p = reader.pos();
    let sig = match reader.read_bytes(4) {
        Ok(v) => v,
        Err(e) => { return Err(UsmError::Io(e)); },
    };
    if !same_bytes(sig.as_slice(), "@UTF".as_bytes()) {
        return Err(UsmError::InvalidUtfSignature);
    }
    let b = match reader.read_bytes(28) {
        Ok(v) => v,
        Err(e) => { return Err(UsmError::Io(e)); },
    };
    let head = TableHead {
        table_size: word_at(&b, 0),
        row_offset: half_at(&b, 6),
        string_table_offset: word_at(&b, 8),
        data_offset: word_at(&b, 12),
        table_name_offset: word_at(&b, 16),
        number_of_fields: half_at(&b, 20),
        number_of_rows: word_at(&b, 24),
    };
    proof {
        let all = slice_at(d, p, 32);
        assert(all.subrange(4, 8) =~= b@.subrange(0, 4));
        assert(all.subrange(10, 12) =~= b@.subrange(6, 8));
        assert(all.subrange(12, 16) =~= b@.subrange(8, 12));
        assert(all.subrange(16, 20) =~= b@.subrange(12, 16));
        assert(all.subrange(20, 24) =~= b@.subrange(16, 20));
        assert(all.subrange(24, 26) =~= b@.subrange(20, 22));
        assert(all.subrange(28, 32) =~= b@.subrange(24, 28));
        assert(head == table_head(all));
    }
    let size: u32 = head.table_size.wrapping_sub(24);
    assert(size == body_size(head));
    match reader.read_bytes(size as usize) {
        Ok(body) => Ok((head, body)),
        Err(e) => Err(UsmError::Io(e)),
    }
}

/// The big-endian 32-bit word at an index.
fn word_at(b: &Vec<u8>, at: usize) -> (r: u32)
    requires
        at + 4 <= b@.len(),
    ensures
        r == u32_be(b@.subrange(at as int, at + 4)),
{
    assert(b@.len() == b.len());
    let part = crate::bytes::copy_range(b.as_slice(), at, at + 4);
    crate::bytes::read_u32_be(part.as_slice())
}

/// The big-endian 16-bit word at an index.
fn half_at(b: &Vec<u8>, at: usize) -> (r: u16)
    requires
        at + 2 <= b@.len(),
    ensures
        r == u16_be(b@.subrange(at as int, at + 2)),
{
    assert(b@.len() == b.len());
    let part = crate::bytes::copy_range(b.as_slice(), at, at + 2);
    crate::bytes::read_u16_be(part.as_slice())
}

/// Reads text that an offset points at; the position stays where it was.
fn read_text_from(reader: &mut Reader, at: i64) -> (r: Result<String, UsmError>)
    requires
        addressable(old(reader).data().len()),
        at >= i64::MIN + 24,
    ensures
        final(reader).data() == old(reader).data(),
        match (r, text_from(old(reader).data(), at as int)) {
            (Ok(v), Ok(w)) => v@ == w && final(reader).pos() == old(reader).pos(),
            (Err(e), Err(f)) => e@ == f,
            _ => false,
        },
{
    let current_pos: u64 = match reader.stream_position() {
        Ok(v) => v,
        Err(e) => { return Err(UsmError::Io(e)); },
    };
    let _ = reader.seek(SeekFrom::Start(position_of(at - 24)));
    let bytes = match read_cstring(reader) {
        Ok(v) => v,
        Err(e) => { return Err(UsmError::Io(e)); },
    };
    let _ = reader.seek(SeekFrom::Start(current_pos));
    proof {
        text_end_lies(reader.data(), wrap64(at - 24));
    }
    Ok(crate::reader::decode_utf8_lossy(bytes.as_slice()))
}

/// Reads one column description.
fn read_field(reader: &mut Reader, head: &TableHead) -> (r: Result<FieldInfo, UsmError>)
    requires
        addressable(old(reader).data().len()),
    ensures
        final(reader).data() == old(reader).data(),
        match (r, field_at(old(reader).data(), old(reader).pos(), *head)) {
            (Ok(v), Ok(w)) => v.model() == w.0 && final(reader).pos() == w.1,
            (Err(e), Err(f)) => e@ == f,
            _ => false,
        },
{
    let flag: u8 = match reader.read_u8() {
        Ok(v) => v,
        Err(e) => { return Err(UsmError::Io(e)); },
    };
    let name_offset: u32 = match reader.read_u32() {
        Ok(v) => v,
        Err(e) => { return Err(UsmError::Io(e)); },
    };
    let column_type: u8 = flag % 0x10;
    let strings: i64 = head.string_table_offset as i64;
    let name = match read_text_from(reader, strings + name_offset as i64) {
        Ok(v) => v,
        Err(e) => { return Err(e); },
    };
    let storage: u8 = flag / 0x10 * 0x10;
    if storage == COLUMN_STORAGE_CONSTANT || storage == COLUMN_STORAGE_CONSTANT2 {
        match read_column_data(reader, column_type, strings, head.data_offset as i64) {
            Ok(v) => Ok(FieldInfo { name, column_type, constant: Some(v) }),
            Err(e) => Err(e),
        }
    } else {
        Ok(FieldInfo { name, column_type, constant: None })
    }
}

/// Reads one row.
fn read_row(reader: &mut Reader, fields: &Vec<FieldInfo>, head: &TableHead) -> (r: Result<
    UtfRow,
    UsmError,
>)
    ensures
        final(reader).data() == old(reader).data(),
        match (
            r,
            row_upto(
                old(reader).data(),
                fields_model(fields@),
                fields@.len(),
                old(reader).pos(),
                *head,
            ),
        ) {
            (Ok(v), Ok(w)) => row_model(v@) == w.0 && final(reader).pos() == w.1,
            (Err(e), Err(f)) => e@ == f,
            _ => false,
        },
{
    let ghost body = reader.data();
    let ghost p = reader.pos();
    let ghost model = fields_model(fields@);
    let mut row: UtfRow = StrMap::new();
    assert(row_model(row@) =~= Map::empty());
    let mut k: usize = 0;
    while k < fields.len()
        invariant
            k <= fields@.len(),
            body == reader.data(),
            model == fields_model(fields@),
            row_upto(body, model, k as nat, p, *head) == Ok::<(RowModel, nat), UsmFault>(
                (row_model(row@), reader.pos()),
            ),
            body == old(reader).data(),
            p == old(reader).pos(),
        decreases fields@.len() - k,
    {
        let field = &fields[k];
        let ghost before = row@;
        assert(model[k as int] == field.model());
        let value = match &field.constant {
            Some(v) => v.duplicate(),
            None => match read_column_data(
                reader,
                field.column_type,
                head.string_table_offset as i64,
                head.data_offset as i64,
            ) {
                Ok(v) => v,
                Err(e) => {
                    proof {
                        assert(row_upto(body, model, k as nat + 1, p, *head) == Err::<
                            (RowModel, nat),
                            UsmFault,
                        >(e@));
                        row_fails(body, model, k as nat + 1, fields@.len(), p, *head);
                    }
                    return Err(e);
                },
            },
        };
        let ghost value_model = value@;
        row.insert(field.name.clone(), value);
        assert(row_model(row@) =~= row_model(before).insert(field.name@, value_model));
        k += 1;
    }
    Ok(row)
}

/// Reads the rows of a table from the bytes behind its head.
fn read_rows(reader: &mut Reader, head: &TableHead) -> (r: Result<UtfTable, UsmError>)
    requires
        addressable(old(reader).data().len()),
        old(reader).pos() == 0,
    ensures
        match (r, table_rows(*head, old(reader).data())) {
            (Ok(v), Ok(w)) => rows_model(v@) == w,
            (Err(e), Err(f)) => e@ == f,
            _ => false,
        },
{
    let ghost body = reader.data();
    let mut fields: Vec<FieldInfo> = Vec::new();
    assert(fields_model(fields@) =~= Seq::empty());
    let mut i: u16 = 0;
    while i < head.number_of_fields
        invariant
            i <= head.number_of_fields,
            body == reader.data(),
            addressable(body.len()),
            fields_upto(body, i as nat, *head) == Ok::<(Seq<FieldModel>, nat), UsmFault>(
                (fields_model(fields@), reader.pos()),
            ),
            body == old(reader).data(),
        decreases head.number_of_fields - i,
    {
        let ghost before = fields@;
        match read_field(reader, head) {
            Ok(field) => {
                let ghost model = field.model();
                fields.push(field);
                assert(fields_model(fields@) =~= fields_model(before).push(model));
            },
            Err(e) => {
                proof {
                    assert(fields_upto(body, i as nat + 1, *head) == Err::<
                        (Seq<FieldModel>, nat),
                        UsmFault,
                    >(e@));
                    fields_fail(body, i as nat + 1, head.number_of_fields as nat, *head);
                }
                return Err(e);
            },
        }
        i += 1;
    }
    let ghost model = fields_model(fields@);
    let _ = reader.seek(SeekFrom::Start(position_of(head.row_offset as i64 - 24)));
    let mut rows: UtfTable = Vec::new();
    assert(rows_model(rows@) =~= Seq::empty());
    let mut n: u32 = 0;
    while n < head.number_of_rows
        invariant
            n <= head.number_of_rows,
            body == reader.data(),
            model == fields_model(fields@),
            rows_upto(body, model, n as nat, *head) == Ok::<(Seq<RowModel>, nat), UsmFault>(
                (rows_model(rows@), reader.pos()),
            ),
            table_rows(*head, body) == match rows_upto(
                body,
                model,
                head.number_of_rows as nat,
                *head,
            ) {
                Err(f) => Err::<Seq<RowModel>, UsmFault>(f),
                Ok((rows, _)) => Ok::<Seq<RowModel>, UsmFault>(rows),
            },
            body == old(reader).data(),
        decreases head.number_of_rows - n,
    {
        let ghost before = rows@;
        match read_row(reader, &fields, head) {
            Ok(row) => {
                let ghost added = row_model(row@);
                rows.push(row);
                assert(rows_model(rows@) =~= rows_model(before).push(added));
            },
            Err(e) => {
                proof {
                    assert(rows_upto(body, model, n as nat + 1, *head) == Err::<
                        (Seq<RowModel>, nat),
                        UsmFault,
                    >(e@));
                    rows_fail(body, model, n as nat + 1, head.number_of_rows as nat, *head);
                }
                return Err(e);
            },
        }
        n += 1;
    }
    Ok(rows)
}

/// Parse a UTF table from the reader
pub fn get_utf_table(reader: &mut Reader) -> (r: Result<UtfTable, UsmError>)
    requires
        addressable(old(reader).data().len()),
    ensures
        final(reader).data() == old(reader).data(),
        match (r, utf_table_at(old(reader).data(), old(reader).pos())) {
            (Ok(v), Ok(w)) => rows_model(v@) == w,
            (Err(e), Err(f)) => e@ == f,
            _ => false,
        },
        final(reader).pos() == table_end(old(reader).data(), old(reader).pos()),
{
    match read_frame(reader) {
        Ok((head, body)) => {
            let mut utf_reader = Reader::new(Cursor::new(body));
            read_rows(&mut utf_reader, &head)
        },
        Err(e) => Err(e),
    }
}

/// Parse a detailed UTF table from the reader
pub fn get_detailed_utf_table(reader: &mut Reader) -> (r: Result<DetailedUtfTable, UsmError>)
    requires
        addressable(old(reader).data().len()),
    ensures
        final(reader).data() == old(reader).data(),
        match (r, detailed_table_at(old(reader).data(), old(reader).pos())) {
            (Ok(v), Ok(w)) => v@ == w,
            (Err(e), Err(f)) => e@ == f,
            _ => false,
        },
        final(reader).pos() == table_end(old(reader).data(), old(reader).pos()),
{
    match read_frame(reader) {
        Ok((head, body)) => {
            let mut utf_reader = Reader::new(Cursor::new(body));
            let name = match read_text_from(
                &mut utf_reader,
                head.string_table_offset as i64 + head.table_name_offset as i64,
            ) {
                Ok(v) => v,
                Err(e) => { return Err(e); },
            };
            match read_rows(&mut utf_reader, &head) {
                Ok(rows) => Ok(DetailedUtfTable { name, rows }),
                Err(e) => Err(e),
            }
        },
        Err(e) => Err(e),
    }
}

/// The bytes that a value holds outside the row.
pub open spec fn value_len(v: UtfModel) -> nat {
    match v {
        UtfModel::String(b) => b.len(),
        UtfModel::Data(b) => b.len(),
        _ => 0,
    }
}

/// Whether no value of a row is longer than `n`.
pub open spec fn row_within(row: RowModel, n: nat) -> bool {
    forall|k: Seq<char>| #[trigger] row.contains_key(k) ==> value_len(row[k]) <= n
}

/// Whether no value of a table is longer than `n`.
pub open spec fn rows_within(rows: Seq<RowModel>, n: nat) -> bool {
    forall|i: int| 0 <= i < rows.len() ==> row_within(#[trigger] rows[i], n)
}

proof fn cell_within(body: Seq<u8>, p: nat, column_type: u8, strings: int, data: int)
    ensures
        cell_value(body, p, column_type, strings, data) is Ok ==> value_len(
            cell_value(body, p, column_type, strings, data)->Ok_0,
        ) <= body.len(),
{
    if column_type == COLUMN_TYPE_STRING {
        let b = slice_at(body, p, 4);
        text_end_lies(body, wrap64(strings + u32_be(b) - 24));
    }
}

proof fn fields_within(body: Seq<u8>, n: nat, head: TableHead)
    ensures
        fields_upto(body, n, head) is Ok ==> forall|i: int|
            0 <= i < fields_upto(body, n, head)->Ok_0.0.len() && (#[trigger] fields_upto(
                body,
                n,
                head,
            )->Ok_0.0[i]).constant is Some ==> value_len(
                fields_upto(body, n, head)->Ok_0.0[i].constant->Some_0,
            ) <= body.len(),
    decreases n,
{
    if n > 0 && fields_upto(body, n, head) is Ok {
        fields_within(body, (n - 1) as nat, head);
        let p = fields_upto(body, (n - 1) as nat, head)->Ok_0.1;
        cell_within(
            body,
            p + 5,
            body[p as int] % 0x10,
            head.string_table_offset as int,
            head.data_offset as int,
        );
    }
}

proof fn row_lies_within(
    body: Seq<u8>,
    fields: Seq<FieldModel>,
    k: nat,
    p: nat,
    head: TableHead,
)
    requires
        k <= fields.len(),
        forall|i: int|
            0 <= i < fields.len() && (#[trigger] fields[i]).constant is Some ==> value_len(
                fields[i].constant->Some_0,
            ) <= body.len(),
    ensures
        row_upto(body, fields, k, p, head) is Ok ==> row_within(
            row_upto(body, fields, k, p, head)->Ok_0.0,
            body.len(),
        ),
    decreases k,
{
    if k > 0 && row_upto(body, fields, k, p, head) is Ok {
        row_lies_within(body, fields, (k - 1) as nat, p, head);
        let q = row_upto(body, fields, (k - 1) as nat, p, head)->Ok_0.1;
        cell_within(
            body,
            q,
            fields[k - 1].column_type,
            head.string_table_offset as int,
            head.data_offset as int,
        );
    }
}

proof fn rows_lie_within(body: Seq<u8>, fields: Seq<FieldModel>, n: nat, head: TableHead)
    requires
        forall|i: int|
            0 <= i < fields.len() && (#[trigger] fields[i]).constant is Some ==> value_len(
                fields[i].constant->Some_0,
            ) <= body.len(),
    ensures
        rows_upto(body, fields, n, head) is Ok ==> rows_within(
            rows_upto(body, fields, n, head)->Ok_0.0,
            body.len(),
        ),
    decreases n,
{
    if n > 0 && rows_upto(body, fields, n, head) is Ok {
        rows_lie_within(body, fields, (n - 1) as nat, head);
        let p = rows_upto(body, fields, (n - 1) as nat, head)->Ok_0.1;
        row_lies_within(body, fields, fields.len(), p, head);
    }
}

/// No value of a table is longer than the data that the table was read from.
pub proof fn table_lies_within(d: Seq<u8>, pos: nat)
    ensures
        utf_table_at(d, pos) is Ok ==> rows_within(utf_table_at(d, pos)->Ok_0, d.len()),
{
    if utf_table_at(d, pos) is Ok {
        let (head, body) = table_frame(d, pos)->Ok_0;
        fields_within(body, head.number_of_fields as nat, head);
        let fields = fields_upto(body, head.number_of_fields as nat, head)->Ok_0.0;
        rows_lie_within(body, fields, head.number_of_rows as nat, head);
    }
}

} // verus!
