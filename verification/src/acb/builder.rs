//! Writing `@UTF` tables.

use vstd::prelude::*;
use vstd::utf8::{encode_utf8, is_ascii_chars};
use crate::acb::consts::{
    COLUMN_FLAG_DEFAULT, COLUMN_FLAG_NAME, COLUMN_FLAG_ROW, COLUMN_TYPE_1BYTE, COLUMN_TYPE_1BYTE2,
    COLUMN_TYPE_2BYTE, COLUMN_TYPE_2BYTE2, COLUMN_TYPE_4BYTE, COLUMN_TYPE_4BYTE2,
    COLUMN_TYPE_8BYTE, COLUMN_TYPE_DATA, COLUMN_TYPE_FLOAT, COLUMN_TYPE_STRING,
};
use crate::acb::utf::{all_entries, entries, type_width, value_map_get, wrap32, Value, ValueMap, ValueModel};
use crate::bytes::{be16, be32, be64, u16_of, u32_of, u8_of, zeros};
use crate::reader::aligned;
use crate::str_map::StrMap;

verus! {

/// Why a container could not be built.
#[derive(Debug)]
pub enum BuilderError {
    NoTracks,
    NameTooLong(String),
    InvalidAudioData,
    UnsupportedFormat,
    TooManyTracks(usize),
    CueIdTooLarge(u32),
    DuplicateCueId(u32),
    MusicAcbRequiresSingleTrack(usize),
    InvalidFixedDataLength { field: &'static str, expected: usize, actual: usize },
}

/// What encoding text as Shift-JIS gives; characters outside it become decimal
/// character references.
pub uninterp spec fn shift_jis_encoded(text: Seq<char>) -> Seq<u8>;

/// Text short enough that the encoder can size its output buffer.
pub open spec fn encodable(text: Seq<char>) -> bool {
    encode_utf8(text).len() <= usize::MAX / 32
}

/// Calls `encoding_rs::SHIFT_JIS.encode`: the encoded text. The text alone
/// decides it, and ASCII text is its own encoding. Longer texts than the bound
/// can overflow the size of its output buffer.
#[verifier::external_body]
fn encode_shift_jis(s: &str) -> (r: Vec<u8>)
    requires
        encodable(s@),
    ensures
        r@ == shift_jis_encoded(s@),
        is_ascii_chars(s@) ==> r@ == encode_utf8(s@),
{
    let (encoded, _, _) = encoding_rs::SHIFT_JIS.encode(s);
    encoded.into_owned()
}

/// Text in Shift-JIS. ASCII text is its own encoding.
pub open spec fn encoded_text(text: Seq<char>) -> Seq<u8> {
    if is_ascii_chars(text) { encode_utf8(text) } else { shift_jis_encoded(text) }
}

/// Text as a table stores it: Shift-JIS with a terminator.
pub open spec fn stored_text(text: Seq<char>) -> Seq<u8> {
    encoded_text(text).push(0)
}

/// The zero bytes that bring a length up to a multiple of `alignment`.
pub open spec fn padding(len: int, alignment: int) -> nat {
    if alignment == 0 { 0 } else { (aligned(alignment, len) - len) as nat }
}

/// The number of zero bytes before the next multiple of `alignment`.
pub(crate) fn pad_len(len: usize, alignment: u32) -> (r: usize)
    ensures
        r == padding(len as int, alignment as int),
{
    if alignment == 0 {
        return 0;
    }
    proof {
        lemma_padding(len as int, alignment as int);
    }
    let rem: u64 = len as u64 % alignment as u64;
    if rem == 0 {
        0
    } else {
        (alignment as u64 - rem) as usize
    }
}

/// What `padding` is in terms of the remainder.
proof fn lemma_padding(len: int, alignment: int)
    requires
        alignment > 0,
        len >= 0,
    ensures
        padding(len, alignment) == if len % alignment == 0 { 0 } else { alignment - len % alignment },
{
    let q = len / alignment;
    let m = len % alignment;
    vstd::arithmetic::div_mod::lemma_fundamental_div_mod(len, alignment);
    vstd::arithmetic::div_mod::lemma_mod_bound(len, alignment);
    let x = len + alignment - 1;
    if m == 0 {
        assert(x == alignment * q + (alignment - 1));
        vstd::arithmetic::div_mod::lemma_fundamental_div_mod_converse(x, alignment, q, alignment - 1);
    } else {
        assert(x == alignment * (q + 1) + (m - 1)) by (nonlinear_arith)
            requires
                x == alignment * q + m + alignment - 1,
        ;
        vstd::arithmetic::div_mod::lemma_fundamental_div_mod_converse(x, alignment, q + 1, m - 1);
    }
    assert((x / alignment) * alignment == alignment * (x / alignment)) by (nonlinear_arith);
    assert(alignment * (q + 1) == alignment * q + alignment) by (nonlinear_arith);
}

/// The strings of a table: their bytes one after the other, and where each
/// text stands.
pub struct StringPool {
    pub data: Seq<u8>,
    pub offsets: Map<Seq<char>, u32>,
}

impl StringPool {
    /// A pool without strings.
    pub open spec fn none() -> StringPool {
        StringPool { data: Seq::empty(), offsets: Map::empty() }
    }

    /// The pool with a text appended, known or not.
    pub open spec fn appended(self, text: Seq<char>) -> StringPool {
        StringPool { data: self.data + stored_text(text), offsets: self.offsets }
    }

    /// The pool after a text was asked for: a text that is not empty is stored
    /// once.
    pub open spec fn with(self, text: Seq<char>) -> StringPool {
        if text.len() == 0 {
            self.appended(text)
        } else if self.offsets.contains_key(text) {
            self
        } else {
            StringPool {
                data: self.data + stored_text(text),
                offsets: self.offsets.insert(text, wrap32(self.data.len() as int)),
            }
        }
    }

    /// Where a text that was asked for stands.
    pub open spec fn place(self, text: Seq<char>) -> u32 {
        if text.len() > 0 && self.offsets.contains_key(text) {
            self.offsets[text]
        } else {
            wrap32(self.data.len() as int)
        }
    }
}

/// Strings of a table under construction.
#[derive(Debug)]
pub struct StringTable {
    data: Vec<u8>,
    offsets: StrMap<u32>,
}

impl View for StringTable {
    type V = StringPool;

    closed spec fn view(&self) -> StringPool {
        StringPool { data: self.data@, offsets: self.offsets@ }
    }
}

impl StringTable {
    pub fn new() -> (r: Self)
        ensures
            r@ == StringPool::none(),
    {
        let r = StringTable { data: Vec::new(), offsets: StrMap::new() };
        assert(r.data@ =~= Seq::<u8>::empty());
        r
    }

    /// The offset of a text, which is appended unless it is there already. The
    /// offset is counted in 32 bits.
    pub fn add(&mut self, s: &str) -> (r: u32)
        requires
            encodable(s@),
        ensures
            r == old(self)@.place(s@),
            final(self)@ == old(self)@.with(s@),
    {
        if s.is_empty() {
            return self.add_table_name(s);
        }
        if let Some(offset) = self.offsets.get(s) {
            return offset;
        }
        let offset: u32 = (self.data.len() as u64 % 0x1_0000_0000) as u32;
        let mut encoded = encode_shift_jis(s);
        encoded.push(0);
        crate::bytes::put_slice(&mut self.data, encoded.as_slice());
        self.offsets.insert(s.to_owned(), offset);
        offset
    }

    /// Appends a text even where it is there already. The offset is counted in
    /// 32 bits.
    pub fn add_table_name(&mut self, s: &str) -> (r: u32)
        requires
            encodable(s@),
        ensures
            r == wrap32(old(self)@.data.len() as int),
            final(self)@ == old(self)@.appended(s@),
    {
        let offset: u32 = (self.data.len() as u64 % 0x1_0000_0000) as u32;
        let mut encoded = encode_shift_jis(s);
        encoded.push(0);
        crate::bytes::put_slice(&mut self.data, encoded.as_slice());
        offset
    }

    pub fn len(&self) -> (r: usize)
        ensures
            r == self@.data.len(),
    {
        self.data.len()
    }

    pub fn data(&self) -> (r: &[u8])
        ensures
            r@ == self@.data,
    {
        self.data.as_slice()
    }
}

/// A blob pool with one more blob, at the next aligned place.
pub open spec fn blobs_with(blobs: Seq<u8>, alignment: nat, blob: Seq<u8>) -> Seq<u8> {
    blobs + zeros(padding(blobs.len() as int, alignment as int)) + blob
}

/// Where the next blob of a pool stands.
pub open spec fn blob_place(blobs: Seq<u8>, alignment: nat) -> u32 {
    wrap32((blobs.len() + padding(blobs.len() as int, alignment as int)) as int)
}

/// Data blobs of a table under construction.
#[derive(Debug)]
pub(crate) struct DataTable {
    data: Vec<u8>,
    alignment: u32,
}

impl DataTable {
    pub closed spec fn bytes(&self) -> Seq<u8> {
        self.data@
    }

    pub closed spec fn alignment(&self) -> nat {
        self.alignment as nat
    }

    pub(crate) fn new(alignment: u32) -> (r: Self)
        ensures
            r.bytes() == Seq::<u8>::empty(),
            r.alignment() == alignment,
    {
        let r = DataTable { data: Vec::new(), alignment };
        assert(r.data@ =~= Seq::<u8>::empty());
        r
    }

    /// Appends a blob at the next aligned place and returns the place.
    pub(crate) fn add(&mut self, d: &[u8]) -> (r: u32)
        ensures
            r == blob_place(old(self).bytes(), old(self).alignment()),
            final(self).bytes() == blobs_with(old(self).bytes(), old(self).alignment(), d@),
            final(self).alignment() == old(self).alignment(),
    {
        let pad: usize = pad_len(self.data.len(), self.alignment);
        crate::bytes::put_zeros(&mut self.data, pad);
        let offset: u32 = (self.data.len() as u64 % 0x1_0000_0000) as u32;
        crate::bytes::put_slice(&mut self.data, d);
        offset
    }

    pub(crate) fn len(&self) -> (r: usize)
        ensures
            r == self.bytes().len(),
    {
        self.data.len()
    }

    pub(crate) fn data(&self) -> (r: &[u8])
        ensures
            r@ == self.bytes(),
    {
        self.data.as_slice()
    }
}

/// The column type of a value.
pub open spec fn type_of(v: ValueModel) -> u8 {
    match v {
        ValueModel::U8(_) => COLUMN_TYPE_1BYTE,
        ValueModel::I8(_) => COLUMN_TYPE_1BYTE2,
        ValueModel::U16(_) => COLUMN_TYPE_2BYTE,
        ValueModel::I16(_) => COLUMN_TYPE_2BYTE2,
        ValueModel::U32(_) => COLUMN_TYPE_4BYTE,
        ValueModel::I32(_) => COLUMN_TYPE_4BYTE2,
        ValueModel::U64(_) => COLUMN_TYPE_8BYTE,
        ValueModel::F32(_) => COLUMN_TYPE_FLOAT,
        ValueModel::String(_) => COLUMN_TYPE_STRING,
        ValueModel::Data(_) => COLUMN_TYPE_DATA,
    }
}

/// What a column definition holds.
pub struct ColumnDefModel {
    pub name: Seq<char>,
    pub typ: u8,
    pub flag: u8,
    pub constant: Option<ValueModel>,
}

impl ColumnDefModel {
    /// A column with one value for all rows.
    pub open spec fn fixed(name: Seq<char>, v: ValueModel) -> ColumnDefModel {
        ColumnDefModel {
            name,
            typ: type_of(v),
            flag: COLUMN_FLAG_NAME | COLUMN_FLAG_DEFAULT,
            constant: Some(v),
        }
    }

    /// A column with a value in each row.
    pub open spec fn by_row(name: Seq<char>, typ: u8) -> ColumnDefModel {
        ColumnDefModel { name, typ, flag: COLUMN_FLAG_NAME | COLUMN_FLAG_ROW, constant: None }
    }
}

/// Column definition for UTF table building.
#[derive(Debug)]
pub struct ColumnDef {
    pub name: String,
    pub typ: u8,
    pub flag: u8,
    pub constant_value: Option<Value>,
}

impl View for ColumnDef {
    type V = ColumnDefModel;

    open spec fn view(&self) -> ColumnDefModel {
        ColumnDefModel {
            name: self.name@,
            typ: self.typ,
            flag: self.flag,
            constant: match self.constant_value {
                Some(v) => Some(v@),
                None => None,
            },
        }
    }
}

impl Clone for ColumnDef {
    fn clone(&self) -> (r: Self)
        ensures
            r@ == self@,
    {
        ColumnDef {
            name: self.name.clone(),
            typ: self.typ,
            flag: self.flag,
            constant_value: match &self.constant_value {
                Some(v) => Some(v.clone()),
                None => None,
            },
        }
    }
}

impl ColumnDef {
    pub fn constant(name: &str, value: Value) -> (r: Self)
        ensures
            r@ == ColumnDefModel::fixed(name@, value@),
    {
        let typ: u8 = match &value {
            Value::U8(_) => COLUMN_TYPE_1BYTE,
            Value::I8(_) => COLUMN_TYPE_1BYTE2,
            Value::U16(_) => COLUMN_TYPE_2BYTE,
            Value::I16(_) => COLUMN_TYPE_2BYTE2,
            Value::U32(_) => COLUMN_TYPE_4BYTE,
            Value::I32(_) => COLUMN_TYPE_4BYTE2,
            Value::U64(_) => COLUMN_TYPE_8BYTE,
            Value::F32(_) => COLUMN_TYPE_FLOAT,
            Value::String(_) => COLUMN_TYPE_STRING,
            Value::Data(_) => COLUMN_TYPE_DATA,
        };
        ColumnDef {
            name: name.to_owned(),
            typ,
            flag: COLUMN_FLAG_NAME | COLUMN_FLAG_DEFAULT,
            constant_value: Some(value),
        }
    }

    pub fn per_row(name: &str, typ: u8) -> (r: Self)
        ensures
            r@ == ColumnDefModel::by_row(name@, typ),
    {
        ColumnDef {
            name: name.to_owned(),
            typ,
            flag: COLUMN_FLAG_NAME | COLUMN_FLAG_ROW,
            constant_value: None,
        }
    }
}

/// What a table under construction holds.
pub struct TableModel {
    pub name: Seq<char>,
    pub columns: Seq<ColumnDefModel>,
    pub rows: Seq<Map<Seq<char>, ValueModel>>,
    pub data_offset_alignment: nat,
    pub table_alignment: nat,
    pub data_item_alignment: nat,
    pub encoding: u16,
}

/// The pools of a table while it is collected.
pub struct Pools {
    pub strings: StringPool,
    pub blobs: Seq<u8>,
}

/// The place and size that a value has in the pools, where it has one.
pub type Place = Option<(u32, u32)>;

/// The pools after a value went into them.
pub open spec fn pools_with(p: Pools, alignment: nat, v: ValueModel) -> Pools {
    match v {
        ValueModel::String(s) => Pools { strings: p.strings.with(s), blobs: p.blobs },
        ValueModel::Data(d) => if d.len() > 0 {
            Pools { strings: p.strings, blobs: blobs_with(p.blobs, alignment, d) }
        } else {
            p
        },
        _ => p,
    }
}

/// The place of a value that goes into the pools.
pub open spec fn value_place(p: Pools, alignment: nat, v: ValueModel) -> Place {
    match v {
        ValueModel::String(s) => Some((p.strings.place(s), 0)),
        ValueModel::Data(d) => if d.len() > 0 {
            Some((blob_place(p.blobs, alignment), wrap32(d.len() as int)))
        } else {
            None
        },
        _ => None,
    }
}

/// The pools after a column's name, before its constant.
pub open spec fn pools_named(p: Pools, c: ColumnDefModel) -> Pools {
    Pools { strings: p.strings.with(c.name), blobs: p.blobs }
}

/// The pools after the first `n` columns: each name, then each constant.
pub open spec fn pools_after_columns(t: TableModel, n: nat) -> Pools
    decreases n,
{
    if n == 0 {
        Pools { strings: StringPool::none().appended(t.name), blobs: Seq::empty() }
    } else {
        let c = t.columns[n - 1];
        let p = pools_named(pools_after_columns(t, (n - 1) as nat), c);
        match c.constant {
            Some(v) => pools_with(p, t.data_item_alignment, v),
            None => p,
        }
    }
}

/// Where the name of column `i` stands.
pub open spec fn name_place(t: TableModel, i: nat) -> u32 {
    pools_after_columns(t, i).strings.place(t.columns[i as int].name)
}

/// Where the constant of column `i` stands.
pub open spec fn constant_place(t: TableModel, i: nat) -> Place {
    let c = t.columns[i as int];
    match c.constant {
        Some(v) => value_place(
            pools_named(pools_after_columns(t, i), c),
            t.data_item_alignment,
            v,
        ),
        None => None,
    }
}

/// The pools after the first `n` columns of a row: the values of the columns
/// without a constant.
pub open spec fn pools_after_cells(
    t: TableModel,
    start: Pools,
    row: Map<Seq<char>, ValueModel>,
    n: nat,
) -> Pools
    decreases n,
{
    if n == 0 {
        start
    } else {
        let c = t.columns[n - 1];
        let p = pools_after_cells(t, start, row, (n - 1) as nat);
        if c.constant is None && row.contains_key(c.name) {
            pools_with(p, t.data_item_alignment, row[c.name])
        } else {
            p
        }
    }
}

/// The places of the values of a row, by column name, after `n` columns.
pub open spec fn cell_places(
    t: TableModel,
    start: Pools,
    row: Map<Seq<char>, ValueModel>,
    n: nat,
) -> Map<Seq<char>, (u32, u32)>
    decreases n,
{
    if n == 0 {
        Map::empty()
    } else {
        let c = t.columns[n - 1];
        let p = pools_after_cells(t, start, row, (n - 1) as nat);
        let m = cell_places(t, start, row, (n - 1) as nat);
        if c.constant is None && row.contains_key(c.name) {
            match value_place(p, t.data_item_alignment, row[c.name]) {
                Some(at) => m.insert(c.name, at),
                None => m,
            }
        } else {
            m
        }
    }
}

/// The pools after all columns and the first `n` rows.
pub open spec fn pools_after_rows(t: TableModel, n: nat) -> Pools
    decreases n,
{
    if n == 0 {
        pools_after_columns(t, t.columns.len())
    } else {
        pools_after_cells(
            t,
            pools_after_rows(t, (n - 1) as nat),
            t.rows[n - 1],
            t.columns.len(),
        )
    }
}

/// The places of the values of row `i`.
pub open spec fn row_places(t: TableModel, i: nat) -> Map<Seq<char>, (u32, u32)> {
    cell_places(t, pools_after_rows(t, i), t.rows[i as int], t.columns.len())
}

/// The finished pools of a table.
pub open spec fn pools_of(t: TableModel) -> Pools {
    pools_after_rows(t, t.rows.len())
}

/// The bytes of a value; zero for a type that is none.
pub open spec fn width_or_zero(typ: u8) -> nat {
    match type_width(typ) {
        Some(w) => w,
        None => 0,
    }
}

/// The schema bytes of the first `n` columns, as the header counts them.
pub open spec fn schema_size_of(t: TableModel, n: nat) -> nat
    decreases n,
{
    if n == 0 {
        0
    } else {
        let c = t.columns[n - 1];
        schema_size_of(t, (n - 1) as nat) + 5 + if c.constant is Some {
            width_or_zero(c.typ)
        } else {
            0
        }
    }
}

/// The bytes of a row's first `n` columns, as the header counts them.
pub open spec fn row_width_of(t: TableModel, n: nat) -> nat
    decreases n,
{
    if n == 0 {
        0
    } else {
        let c = t.columns[n - 1];
        row_width_of(t, (n - 1) as nat) + if c.constant is Some {
            0
        } else {
            width_or_zero(c.typ)
        }
    }
}

/// Where the parts of a table stand.
pub struct TableLayout {
    pub row_width: nat,
    pub rows_at: nat,
    pub strings_at: nat,
    pub strings_end: nat,
    pub data_at: nat,
    pub data_end: nat,
    pub size: nat,
}

/// The layout of a table.
#[verifier::opaque]
pub open spec fn layout_of(t: TableModel) -> TableLayout {
    let row_width = row_width_of(t, t.columns.len());
    let rows_at = 0x20 + schema_size_of(t, t.columns.len());
    let strings_at = rows_at + row_width * t.rows.len();
    let strings_end = strings_at + pools_of(t).strings.data.len();
    let data_at = strings_end + padding(strings_end as int, t.data_offset_alignment as int);
    let data_end = data_at + pools_of(t).blobs.len();
    let size = data_end + padding(data_end as int, t.table_alignment as int);
    TableLayout { row_width, rows_at, strings_at, strings_end, data_at, data_end, size }
}

/// Whether the encoder can take the text of a value.
pub open spec fn value_encodable(v: ValueModel) -> bool {
    match v {
        ValueModel::String(s) => encodable(s),
        _ => true,
    }
}

/// Whether the encoder can take every text of a column.
pub open spec fn column_encodable(c: ColumnDefModel) -> bool {
    encodable(c.name) && match c.constant {
        Some(v) => value_encodable(v),
        None => true,
    }
}

/// Whether the encoder can take every text that a row stores.
pub open spec fn row_encodable(t: TableModel, row: Map<Seq<char>, ValueModel>) -> bool {
    forall|k: int|
        0 <= k < t.columns.len() && (#[trigger] t.columns[k]).constant is None
            && row.contains_key(t.columns[k].name) ==> value_encodable(row[t.columns[k].name])
}

/// Whether the encoder can take every text of a table.
pub open spec fn texts_encodable(t: TableModel) -> bool {
    &&& encodable(t.name)
    &&& forall|k: int| 0 <= k < t.columns.len() ==> column_encodable(#[trigger] t.columns[k])
    &&& forall|i: int| 0 <= i < t.rows.len() ==> row_encodable(t, #[trigger] t.rows[i])
}

/// Whether a table's texts can be encoded and its offsets fit in 32 bits.
pub open spec fn fits(t: TableModel) -> bool {
    texts_encodable(t) && layout_of(t).size <= u32::MAX
}

/// The bytes of a value in the schema or in a row.
pub open spec fn value_bytes(v: ValueModel, at: Place) -> Seq<u8> {
    match v {
        ValueModel::U8(v) => seq![v],
        ValueModel::I8(v) => seq![u8_of(v)],
        ValueModel::U16(v) => be16(v),
        ValueModel::I16(v) => be16(u16_of(v)),
        ValueModel::U32(v) => be32(v),
        ValueModel::I32(v) => be32(u32_of(v)),
        ValueModel::U64(v) => be64(v),
        ValueModel::F32(v) => be32(v),
        ValueModel::String(_) => match at {
            Some((offset, _)) => be32(offset),
            None => be32(0),
        },
        ValueModel::Data(_) => match at {
            Some((offset, size)) => be32(offset) + be32(size),
            None => be32(0) + be32(0),
        },
    }
}

/// The schema bytes of the first `n` columns.
pub open spec fn schema_bytes(t: TableModel, n: nat) -> Seq<u8>
    decreases n,
{
    if n == 0 {
        Seq::empty()
    } else {
        let i = (n - 1) as nat;
        let c = t.columns[i as int];
        schema_bytes(t, i) + seq![c.flag | c.typ] + be32(name_place(t, i)) + match c.constant {
            Some(v) => value_bytes(v, constant_place(t, i)),
            None => Seq::empty(),
        }
    }
}

/// The place of a column's value in a row.
pub open spec fn place_in(m: Map<Seq<char>, (u32, u32)>, name: Seq<char>) -> Place {
    if m.contains_key(name) { Some(m[name]) } else { None }
}

/// The bytes of one cell.
pub open spec fn cell_bytes(
    c: ColumnDefModel,
    row: Map<Seq<char>, ValueModel>,
    places: Map<Seq<char>, (u32, u32)>,
) -> Seq<u8> {
    if c.constant is Some {
        Seq::empty()
    } else if row.contains_key(c.name) {
        value_bytes(row[c.name], place_in(places, c.name))
    } else {
        zeros(width_or_zero(c.typ))
    }
}

/// The bytes of a row's first `n` columns.
pub open spec fn row_bytes(
    t: TableModel,
    row: Map<Seq<char>, ValueModel>,
    places: Map<Seq<char>, (u32, u32)>,
    n: nat,
) -> Seq<u8>
    decreases n,
{
    if n == 0 {
        Seq::empty()
    } else {
        row_bytes(t, row, places, (n - 1) as nat) + cell_bytes(t.columns[n - 1], row, places)
    }
}

/// The bytes of the first `n` rows.
pub open spec fn rows_bytes(t: TableModel, n: nat) -> Seq<u8>
    decreases n,
{
    if n == 0 {
        Seq::empty()
    } else {
        let i = (n - 1) as nat;
        rows_bytes(t, i) + row_bytes(t, t.rows[i as int], row_places(t, i), t.columns.len())
    }
}

/// The letters `@UTF`.
pub open spec fn utf_letters() -> Seq<u8> {
    seq![0x40u8, 0x55, 0x54, 0x46]
}

/// The header of a table. Its offsets count from the ninth byte; numbers of
/// columns and rows are kept in their field's width.
pub open spec fn header_bytes(t: TableModel) -> Seq<u8> {
    let l = layout_of(t);
    utf_letters() + be32((l.size - 8) as u32) + be16(t.encoding) + be16(
        ((l.rows_at - 8) % 0x1_0000) as u16,
    ) + be32((l.strings_at - 8) as u32) + be32((l.data_at - 8) as u32) + be32(0) + be16(
        (t.columns.len() % 0x1_0000) as u16,
    ) + be16((l.row_width % 0x1_0000) as u16) + be32(wrap32(t.rows.len() as int))
}

/// All bytes of a table.
#[verifier::opaque]
pub open spec fn table_bytes(t: TableModel) -> Seq<u8> {
    let l = layout_of(t);
    header_bytes(t) + schema_bytes(t, t.columns.len()) + rows_bytes(t, t.rows.len())
        + pools_of(t).strings.data + zeros((l.data_at - l.strings_end) as nat) + pools_of(t).blobs
        + zeros((l.size - l.data_end) as nat)
}

/// Builder for UTF tables.
#[derive(Debug)]
pub struct UtfTableBuilder {
    pub table_name: String,
    pub columns: Vec<ColumnDef>,
    pub rows: Vec<ValueMap>,
    data_offset_alignment: u32,
    table_alignment: u32,
    data_item_alignment: u32,
    encoding: u16,
}

/// The models of a list of column definitions.
pub open spec fn column_defs(v: Seq<ColumnDef>) -> Seq<ColumnDefModel> {
    v.map_values(|c: ColumnDef| c@)
}

impl View for UtfTableBuilder {
    type V = TableModel;

    closed spec fn view(&self) -> TableModel {
        TableModel {
            name: self.table_name@,
            columns: column_defs(self.columns@),
            rows: all_entries(self.rows@),
            data_offset_alignment: self.data_offset_alignment as nat,
            table_alignment: self.table_alignment as nat,
            data_item_alignment: self.data_item_alignment as nat,
            encoding: self.encoding,
        }
    }
}

impl TableModel {
    /// A table without columns and rows.
    pub open spec fn named(name: Seq<char>) -> TableModel {
        TableModel {
            name,
            columns: Seq::empty(),
            rows: Seq::empty(),
            data_offset_alignment: 32,
            table_alignment: 32,
            data_item_alignment: 1,
            encoding: 0,
        }
    }

    /// The table with one more column.
    pub open spec fn column(self, c: ColumnDefModel) -> TableModel {
        TableModel { columns: self.columns.push(c), ..self }
    }

    /// The table with one more row.
    pub open spec fn row(self, row: Map<Seq<char>, ValueModel>) -> TableModel {
        TableModel { rows: self.rows.push(row), ..self }
    }
}

/// An alignment as a table keeps it: at least one.
pub open spec fn at_least_one(alignment: u32) -> nat {
    if alignment == 0 { 1 } else { alignment as nat }
}

impl UtfTableBuilder {
    pub fn new(table_name: &str) -> (r: Self)
        ensures
            r@ == TableModel::named(table_name@),
    {
        let r = UtfTableBuilder {
            table_name: table_name.to_owned(),
            columns: Vec::new(),
            rows: Vec::new(),
            data_offset_alignment: 32,
            table_alignment: 32,
            data_item_alignment: 1,
            encoding: 0,
        };
        assert(r@.columns =~= Seq::<ColumnDefModel>::empty());
        assert(r@.rows =~= Seq::<Map<Seq<char>, ValueModel>>::empty());
        r
    }

    pub fn add_column(&mut self, col: ColumnDef) -> (r: &mut Self)
        ensures
            r@ == old(self)@.column(col@),
            *final(self) == *final(r),
    {
        self.columns.push(col);
        assert(self@.columns =~= old(self)@.columns.push(col@));
        self
    }

    pub fn add_row(&mut self, row: ValueMap) -> (r: &mut Self)
        ensures
            r@ == old(self)@.row(entries(row)),
            *final(self) == *final(r),
    {
        self.rows.push(row);
        assert(self@.rows =~= old(self)@.rows.push(entries(row)));
        self
    }

    pub fn with_data_item_alignment(self, alignment: u32) -> (r: Self)
        ensures
            r@ == (TableModel { data_item_alignment: at_least_one(alignment), ..self@ }),
    {
        let mut r = self;
        r.data_item_alignment = if alignment == 0 { 1 } else { alignment };
        r
    }

    pub fn with_data_offset_alignment(self, alignment: u32) -> (r: Self)
        ensures
            r@ == (TableModel { data_offset_alignment: at_least_one(alignment), ..self@ }),
    {
        let mut r = self;
        r.data_offset_alignment = if alignment == 0 { 1 } else { alignment };
        r
    }

    pub fn with_table_alignment(self, alignment: u32) -> (r: Self)
        ensures
            r@ == (TableModel { table_alignment: at_least_one(alignment), ..self@ }),
    {
        let mut r = self;
        r.table_alignment = if alignment == 0 { 1 } else { alignment };
        r
    }

    pub fn with_encoding(self, encoding: u16) -> (r: Self)
        ensures
            r@ == (TableModel { encoding, ..self@ }),
    {
        let mut r = self;
        r.encoding = encoding;
        r
    }

    /// The size of a column value in bytes; zero for a type that is none.
    fn value_size(typ: u8) -> (r: u32)
        ensures
            r == width_or_zero(typ),
            r <= 8,
    {
        match typ {
            COLUMN_TYPE_1BYTE | COLUMN_TYPE_1BYTE2 => 1,
            COLUMN_TYPE_2BYTE | COLUMN_TYPE_2BYTE2 => 2,
            COLUMN_TYPE_4BYTE | COLUMN_TYPE_4BYTE2 | COLUMN_TYPE_FLOAT | COLUMN_TYPE_STRING => 4,
            COLUMN_TYPE_8BYTE | COLUMN_TYPE_DATA => 8,
            _ => 0,
        }
    }

    /// Whether the encoder can take a value's text.
    fn can_encode(value: &Value) -> (r: bool)
        ensures
            r == value_encodable(value@),
    {
        match value {
            Value::String(s) => s.as_str().as_bytes().len() <= usize::MAX / 32,
            _ => true,
        }
    }

    /// Whether the encoder can take every text of the table.
    fn texts_encodable(&self) -> (r: bool)
        ensures
            r == texts_encodable(self@),
    {
        let ghost t = self@;
        if self.table_name.as_str().as_bytes().len() > usize::MAX / 32 {
            return false;
        }
        let mut k: usize = 0;
        while k < self.columns.len()
            invariant
                t == self@,
                k <= self.columns@.len(),
                self.columns@.len() == t.columns.len(),
                forall|j: int| 0 <= j < k ==> column_encodable(#[trigger] t.columns[j]),
            decreases self.columns@.len() - k,
        {
            let c = &self.columns[k];
            assert(c@ == t.columns[k as int]);
            if c.name.as_str().as_bytes().len() > usize::MAX / 32 {
                return false;
            }
            if let Some(v) = &c.constant_value {
                if !Self::can_encode(v) {
                    return false;
                }
            }
            k += 1;
        }
        let mut i: usize = 0;
        while i < self.rows.len()
            invariant
                t == self@,
                i <= self.rows@.len(),
                self.rows@.len() == t.rows.len(),
                forall|j: int| 0 <= j < i ==> row_encodable(t, #[trigger] t.rows[j]),
            decreases self.rows@.len() - i,
        {
            if !self.row_encodable(&self.rows[i]) {
                assert(!row_encodable(t, t.rows[i as int]));
                return false;
            }
            i += 1;
        }
        true
    }

    /// Whether the encoder can take every text that a row stores.
    fn row_encodable(&self, row: &ValueMap) -> (r: bool)
        ensures
            r == row_encodable(self@, entries(*row)),
    {
        let ghost t = self@;
        let ghost m = entries(*row);
        let mut k: usize = 0;
        while k < self.columns.len()
            invariant
                t == self@,
                m == entries(*row),
                k <= self.columns@.len(),
                self.columns@.len() == t.columns.len(),
                forall|j: int|
                    0 <= j < k && (#[trigger] t.columns[j]).constant is None && m.contains_key(
                        t.columns[j].name,
                    ) ==> value_encodable(m[t.columns[j].name]),
            decreases self.columns@.len() - k,
        {
            let c = &self.columns[k];
            assert(c@ == t.columns[k as int]);
            if c.constant_value.is_none() {
                if let Some(v) = value_map_get(row, c.name.as_str()) {
                    if !Self::can_encode(v) {
                        return false;
                    }
                }
            }
            k += 1;
        }
        true
    }

    /// Puts a value's text or blob into the pools and returns its place.
    fn add_value_to_tables(
        value: &Value,
        string_table: &mut StringTable,
        data_table: &mut DataTable,
    ) -> (r: Option<(u32, u32)>)
        requires
            value_encodable(value@),
        ensures
            r == value_place(
                pools_view(old(string_table), old(data_table)),
                old(data_table).alignment(),
                value@,
            ),
            pools_view(final(string_table), final(data_table)) == pools_with(
                pools_view(old(string_table), old(data_table)),
                old(data_table).alignment(),
                value@,
            ),
            final(data_table).alignment() == old(data_table).alignment(),
    {
        match value {
            Value::String(value) => {
                let at: u32 = string_table.add(value.as_str());
                Some((at, 0))
            },
            Value::Data(value) => {
                if value.len() > 0 {
                    let at: u32 = data_table.add(value.as_slice());
                    Some((at, (value.len() as u64 % 0x1_0000_0000) as u32))
                } else {
                    None
                }
            },
            _ => None,
        }
    }

    /// Puts the names and constants of all columns into the pools.
    fn collect_column_data(
        &self,
        string_table: &mut StringTable,
        data_table: &mut DataTable,
    ) -> (r: (Vec<u32>, Vec<Option<(u32, u32)>>))
        requires
            texts_encodable(self@),
            pools_view(old(string_table), old(data_table)) == pools_after_columns(self@, 0),
            old(data_table).alignment() == self@.data_item_alignment,
        ensures
            pools_view(final(string_table), final(data_table)) == pools_after_columns(
                self@,
                self@.columns.len(),
            ),
            final(data_table).alignment() == old(data_table).alignment(),
            r.0@ == Seq::new(self@.columns.len(), |i: int| name_place(self@, i as nat)),
            r.1@ == Seq::new(self@.columns.len(), |i: int| constant_place(self@, i as nat)),
    {
        let ghost t = self@;
        let mut names: Vec<u32> = Vec::new();
        let mut values: Vec<Option<(u32, u32)>> = Vec::new();
        let mut k: usize = 0;
        while k < self.columns.len()
            invariant
                t == self@,
                texts_encodable(t),
                k <= self.columns@.len(),
                self.columns@.len() == t.columns.len(),
                pools_view(string_table, data_table) == pools_after_columns(t, k as nat),
                data_table.alignment() == t.data_item_alignment,
                data_table.alignment() == old(data_table).alignment(),
                names@ =~= Seq::new(k as nat, |i: int| name_place(t, i as nat)),
                values@ =~= Seq::new(k as nat, |i: int| constant_place(t, i as nat)),
            decreases self.columns@.len() - k,
        {
            let c = &self.columns[k];
            assert(c@ == t.columns[k as int]);
            assert(column_encodable(t.columns[k as int]));
            let at: u32 = string_table.add(c.name.as_str());
            names.push(at);
            assert(pools_view(string_table, data_table) == pools_named(
                pools_after_columns(t, k as nat),
                c@,
            ));
            let place = match &c.constant_value {
                Some(v) => Self::add_value_to_tables(v, string_table, data_table),
                None => None,
            };
            values.push(place);
            k += 1;
        }
        (names, values)
    }

    /// Puts the values of all rows into the pools.
    fn collect_row_data(
        &self,
        string_table: &mut StringTable,
        data_table: &mut DataTable,
    ) -> (r: Vec<StrMap<(u32, u32)>>)
        requires
            texts_encodable(self@),
            pools_view(old(string_table), old(data_table)) == pools_after_rows(self@, 0),
            old(data_table).alignment() == self@.data_item_alignment,
        ensures
            pools_view(final(string_table), final(data_table)) == pools_of(self@),
            r@.len() == self@.rows.len(),
            forall|i: int| 0 <= i < r@.len() ==> (#[trigger] r@[i])@ == row_places(self@, i as nat),
    {
        let ghost t = self@;
        let mut rows: Vec<StrMap<(u32, u32)>> = Vec::new();
        let mut i: usize = 0;
        while i < self.rows.len()
            invariant
                t == self@,
                texts_encodable(t),
                i <= self.rows@.len(),
                self.rows@.len() == t.rows.len(),
                pools_view(string_table, data_table) == pools_after_rows(t, i as nat),
                data_table.alignment() == t.data_item_alignment,
                rows@.len() == i,
                forall|j: int| 0 <= j < i ==> (#[trigger] rows@[j])@ == row_places(t, j as nat),
            decreases self.rows@.len() - i,
        {
            assert(t.rows[i as int] == entries(self.rows@[i as int]));
            assert(row_encodable(t, t.rows[i as int]));
            let offsets = self.collect_row(&self.rows[i], string_table, data_table);
            rows.push(offsets);
            i += 1;
        }
        rows
    }

    /// Puts the values of one row into the pools.
    fn collect_row(
        &self,
        row: &ValueMap,
        string_table: &mut StringTable,
        data_table: &mut DataTable,
    ) -> (r: StrMap<(u32, u32)>)
        requires
            row_encodable(self@, entries(*row)),
            old(data_table).alignment() == self@.data_item_alignment,
        ensures
            ({
                let start = pools_view(old(string_table), old(data_table));
                let n = self@.columns.len();
                &&& pools_view(final(string_table), final(data_table)) == pools_after_cells(
                    self@,
                    start,
                    entries(*row),
                    n,
                )
                &&& r@ == cell_places(self@, start, entries(*row), n)
            }),
            final(data_table).alignment() == old(data_table).alignment(),
    {
        let ghost t = self@;
        let ghost m = entries(*row);
        let ghost start = pools_view(string_table, data_table);
        let mut offsets: StrMap<(u32, u32)> = StrMap::new();
        let mut k: usize = 0;
        while k < self.columns.len()
            invariant
                t == self@,
                m == entries(*row),
                row_encodable(t, m),
                k <= self.columns@.len(),
                self.columns@.len() == t.columns.len(),
                pools_view(string_table, data_table) == pools_after_cells(t, start, m, k as nat),
                data_table.alignment() == t.data_item_alignment,
                data_table.alignment() == old(data_table).alignment(),
                offsets@ == cell_places(t, start, m, k as nat),
            decreases self.columns@.len() - k,
        {
            let c = &self.columns[k];
            assert(c@ == t.columns[k as int]);
            if c.constant_value.is_none() {
                if let Some(v) = value_map_get(row, c.name.as_str()) {
                    if let Some(at) = Self::add_value_to_tables(v, string_table, data_table) {
                        offsets.insert(c.name.clone(), at);
                    }
                }
            }
            k += 1;
        }
        offsets
    }

    /// Appends a value as the schema and the rows hold it.
    fn write_value(writer: &mut Vec<u8>, val: &Value, offset_pair: &Option<(u32, u32)>)
        ensures
            final(writer)@ == old(writer)@ + value_bytes(val@, *offset_pair),
    {
        match val {
            Value::U8(v) => {
                writer.push(*v);
                assert(writer@ =~= old(writer)@ + seq![*v]);
            },
            Value::I8(v) => {
                crate::bytes::put_i8(writer, *v);
                assert(writer@ =~= old(writer)@ + seq![u8_of(*v)]);
            },
            Value::U16(v) => crate::bytes::put_u16_be(writer, *v),
            Value::I16(v) => crate::bytes::put_i16_be(writer, *v),
            Value::U32(v) => crate::bytes::put_u32_be(writer, *v),
            Value::I32(v) => crate::bytes::put_i32_be(writer, *v),
            Value::U64(v) => crate::bytes::put_u64_be(writer, *v),
            Value::F32(v) => crate::bytes::put_u32_be(writer, *v),
            Value::String(_) => {
                if let Some((offset, _)) = offset_pair {
                    crate::bytes::put_u32_be(writer, *offset);
                } else {
                    crate::bytes::put_u32_be(writer, 0);
                }
            },
            Value::Data(_) => {
                if let Some((offset, size)) = offset_pair {
                    crate::bytes::put_u32_be(writer, *offset);
                    crate::bytes::put_u32_be(writer, *size);
                    assert(writer@ =~= old(writer)@ + (be32(*offset) + be32(*size)));
                } else {
                    crate::bytes::put_u32_be(writer, 0);
                    crate::bytes::put_u32_be(writer, 0);
                    assert(writer@ =~= old(writer)@ + (be32(0) + be32(0)));
                }
            },
        }
    }

    /// Appends the value of a cell that has none.
    fn write_default(writer: &mut Vec<u8>, typ: u8)
        ensures
            final(writer)@ == old(writer)@ + zeros(width_or_zero(typ)),
    {
        let size: usize = Self::value_size(typ) as usize;
        crate::bytes::put_zeros(writer, size);
    }

    /// Appends the schema.
    fn write_schema(
        &self,
        writer: &mut Vec<u8>,
        column_name_offsets: &Vec<u32>,
        constant_offsets: &Vec<Option<(u32, u32)>>,
    )
        requires
            column_name_offsets@ == Seq::new(
                self@.columns.len(),
                |i: int| name_place(self@, i as nat),
            ),
            constant_offsets@ == Seq::new(
                self@.columns.len(),
                |i: int| constant_place(self@, i as nat),
            ),
        ensures
            final(writer)@ == old(writer)@ + schema_bytes(self@, self@.columns.len()),
    {
        let ghost t = self@;
        let mut k: usize = 0;
        assert(writer@ =~= old(writer)@ + schema_bytes(t, 0));
        while k < self.columns.len()
            invariant
                t == self@,
                k <= self.columns@.len(),
                self.columns@.len() == t.columns.len(),
                column_name_offsets@ == Seq::new(
                    t.columns.len(),
                    |i: int| name_place(t, i as nat),
                ),
                constant_offsets@ == Seq::new(
                    t.columns.len(),
                    |i: int| constant_place(t, i as nat),
                ),
                writer@ == old(writer)@ + schema_bytes(t, k as nat),
            decreases self.columns@.len() - k,
        {
            let c = &self.columns[k];
            assert(c@ == t.columns[k as int]);
            writer.push(c.flag | c.typ);
            crate::bytes::put_u32_be(writer, column_name_offsets[k]);
            if let Some(value) = &c.constant_value {
                Self::write_value(writer, value, &constant_offsets[k]);
            }
            k += 1;
            assert(writer@ =~= old(writer)@ + schema_bytes(t, k as nat));
        }
    }

    /// Appends all rows.
    fn write_rows(&self, writer: &mut Vec<u8>, row_offsets: &Vec<StrMap<(u32, u32)>>)
        requires
            row_offsets@.len() == self@.rows.len(),
            forall|i: int|
                0 <= i < row_offsets@.len() ==> (#[trigger] row_offsets@[i])@ == row_places(
                    self@,
                    i as nat,
                ),
        ensures
            final(writer)@ == old(writer)@ + rows_bytes(self@, self@.rows.len()),
    {
        let ghost t = self@;
        let mut i: usize = 0;
        assert(writer@ =~= old(writer)@ + rows_bytes(t, 0));
        while i < self.rows.len()
            invariant
                t == self@,
                i <= self.rows@.len(),
                self.rows@.len() == t.rows.len(),
                row_offsets@.len() == t.rows.len(),
                forall|j: int|
                    0 <= j < row_offsets@.len() ==> (#[trigger] row_offsets@[j])@ == row_places(
                        t,
                        j as nat,
                    ),
                writer@ == old(writer)@ + rows_bytes(t, i as nat),
            decreases self.rows@.len() - i,
        {
            assert(t.rows[i as int] == entries(self.rows@[i as int]));
            self.write_row(writer, &self.rows[i], &row_offsets[i]);
            i += 1;
            assert(writer@ =~= old(writer)@ + rows_bytes(t, i as nat));
        }
    }

    /// Appends one row.
    fn write_row(&self, writer: &mut Vec<u8>, row: &ValueMap, places: &StrMap<(u32, u32)>)
        ensures
            final(writer)@ == old(writer)@ + row_bytes(
                self@,
                entries(*row),
                places@,
                self@.columns.len(),
            ),
    {
        let ghost t = self@;
        let ghost m = entries(*row);
        let mut k: usize = 0;
        assert(writer@ =~= old(writer)@ + row_bytes(t, m, places@, 0));
        while k < self.columns.len()
            invariant
                t == self@,
                m == entries(*row),
                k <= self.columns@.len(),
                self.columns@.len() == t.columns.len(),
                writer@ == old(writer)@ + row_bytes(t, m, places@, k as nat),
            decreases self.columns@.len() - k,
        {
            let c = &self.columns[k];
            assert(c@ == t.columns[k as int]);
            let ghost before = writer@;
            if c.constant_value.is_none() {
                if let Some(value) = value_map_get(row, c.name.as_str()) {
                    let at = places.get(c.name.as_str());
                    Self::write_value(writer, value, &at);
                } else {
                    Self::write_default(writer, c.typ);
                }
            }
            assert(writer@ =~= before + cell_bytes(c@, m, places@));
            k += 1;
            assert(writer@ =~= old(writer)@ + row_bytes(t, m, places@, k as nat));
        }
    }

    /// The schema bytes as the header counts them.
    fn schema_size(&self) -> (r: u128)
        ensures
            r == schema_size_of(self@, self@.columns.len()),
            r >= 5 * self@.columns.len(),
    {
        let ghost t = self@;
        let mut size: u128 = 0;
        let mut k: usize = 0;
        while k < self.columns.len()
            invariant
                t == self@,
                k <= self.columns@.len(),
                self.columns@.len() == t.columns.len(),
                size == schema_size_of(t, k as nat),
                5 * k <= size <= 13 * k,
            decreases self.columns@.len() - k,
        {
            let c = &self.columns[k];
            assert(c@ == t.columns[k as int]);
            size = size + 5;
            if c.constant_value.is_some() {
                size = size + Self::value_size(c.typ) as u128;
            }
            k += 1;
        }
        size
    }

    /// The bytes of a row as the header counts them.
    fn row_width(&self) -> (r: u128)
        ensures
            r == row_width_of(self@, self@.columns.len()),
            r <= 8 * self@.columns.len(),
    {
        let ghost t = self@;
        let mut size: u128 = 0;
        let mut k: usize = 0;
        while k < self.columns.len()
            invariant
                t == self@,
                k <= self.columns@.len(),
                self.columns@.len() == t.columns.len(),
                size == row_width_of(t, k as nat),
                size <= 8 * k,
            decreases self.columns@.len() - k,
        {
            let c = &self.columns[k];
            assert(c@ == t.columns[k as int]);
            if c.constant_value.is_none() {
                size = size + Self::value_size(c.typ) as u128;
            }
            k += 1;
        }
        size
    }

    /// The table's bytes, unless a text is too long to encode or the table is
    /// too large for 32-bit offsets.
    pub fn to_bytes(&self) -> (r: Option<Vec<u8>>)
        ensures
            r is Some <==> fits(self@),
            r is Some ==> r->Some_0@ == table_bytes(self@),
    {
        let ghost t = self@;
        let ghost l = layout_of(t);
        proof {
            reveal(layout_of);
            reveal(table_bytes);
            layout_order(t);
        }
        if !self.texts_encodable() {
            return None;
        }
        let mut string_table = StringTable::new();
        let mut data_table = DataTable::new(self.data_item_alignment);
        let _ = string_table.add_table_name(self.table_name.as_str());
        assert(pools_view(&string_table, &data_table) == pools_after_columns(t, 0));
        let (names, constants) = self.collect_column_data(&mut string_table, &mut data_table);
        let row_offsets = self.collect_row_data(&mut string_table, &mut data_table);

        let limit: u128 = u32::MAX as u128;
        let schema_size: u128 = self.schema_size();
        let row_width: u128 = self.row_width();
        if schema_size > limit {
            return None;
        }
        let row_count: u128 = self.rows.len() as u128;
        assert(row_width * row_count <= 0x2_0000_0000 * 0x1_0000_0000_0000_0000)
            by (nonlinear_arith)
            requires
                0 <= row_width <= 0x2_0000_0000,
                0 <= row_count <= 0x1_0000_0000_0000_0000,
        ;
        let rows_at: u128 = 0x20 + schema_size;
        let strings_at: u128 = rows_at + row_width * row_count;
        let strings_end: u128 = strings_at + string_table.len() as u128;
        if strings_end > limit {
            return None;
        }
        let pad_strings: usize = pad_len(strings_end as usize, self.data_offset_alignment);
        let data_at: u128 = strings_end + pad_strings as u128;
        let data_end: u128 = data_at + data_table.len() as u128;
        if data_end > limit {
            return None;
        }
        let pad_data: usize = pad_len(data_end as usize, self.table_alignment);
        let table_size: u128 = data_end + pad_data as u128;
        if table_size > limit {
            return None;
        }
        assert(table_size == l.size);

        let mut out: Vec<u8> = Vec::new();
        self.write_header(
            &mut out,
            table_size as u32,
            rows_at as u32,
            strings_at as u32,
            data_at as u32,
            row_width as u64,
        );
        assert(out@ =~= header_bytes(t));
        self.write_schema(&mut out, &names, &constants);
        self.write_rows(&mut out, &row_offsets);
        crate::bytes::put_slice(&mut out, string_table.data());
        crate::bytes::put_zeros(&mut out, pad_strings);
        crate::bytes::put_slice(&mut out, data_table.data());
        crate::bytes::put_zeros(&mut out, pad_data);
        Some(out)
    }

    /// Appends the header.
    fn write_header(
        &self,
        out: &mut Vec<u8>,
        table_size: u32,
        rows_at: u32,
        strings_at: u32,
        data_at: u32,
        row_width: u64,
    )
        requires
            ({
                let l = layout_of(self@);
                &&& table_size == l.size >= 32
                &&& rows_at == l.rows_at >= 32
                &&& strings_at == l.strings_at >= 32
                &&& data_at == l.data_at >= 32
                &&& row_width == l.row_width
            }),
        ensures
            final(out)@ == old(out)@ + header_bytes(self@),
    {
        out.push(0x40);
        out.push(0x55);
        out.push(0x54);
        out.push(0x46);
        crate::bytes::put_u32_be(out, table_size - 8);
        crate::bytes::put_u16_be(out, self.encoding);
        crate::bytes::put_u16_be(out, ((rows_at - 8) % 0x1_0000) as u16);
        crate::bytes::put_u32_be(out, strings_at - 8);
        crate::bytes::put_u32_be(out, data_at - 8);
        crate::bytes::put_u32_be(out, 0);
        crate::bytes::put_u16_be(out, (self.columns.len() as u64 % 0x1_0000) as u16);
        crate::bytes::put_u16_be(out, (row_width % 0x1_0000) as u16);
        crate::bytes::put_u32_be(out, (self.rows.len() as u64 % 0x1_0000_0000) as u32);
        assert(out@ =~= old(out)@ + header_bytes(self@));
    }

    /// Build the UTF table and append it to the output.
    pub fn build(&self, writer: &mut Vec<u8>) -> (r: Result<(), BuilderError>)
        requires
            fits(self@),
        ensures
            r is Ok,
            final(writer)@ == old(writer)@ + table_bytes(self@),
    {
        if let Some(bytes) = self.to_bytes() {
            crate::bytes::put_slice(writer, bytes.as_slice());
        }
        Ok(())
    }
}

/// The parts of a table stand one after the other, behind the header.
proof fn layout_order(t: TableModel)
    ensures
        ({
            let l = layout_of(t);
            &&& 32 <= l.rows_at <= l.strings_at <= l.strings_end
            &&& l.strings_end <= l.data_at <= l.data_end <= l.size
        }),
{
    reveal(layout_of);
    let l = layout_of(t);
    assert(l.row_width * t.rows.len() >= 0) by (nonlinear_arith)
        requires
            l.row_width >= 0,
            t.rows.len() >= 0,
    ;
}

/// The pools that two tables under construction stand for.
pub(crate) open spec fn pools_view(s: &StringTable, d: &DataTable) -> Pools {
    Pools { strings: s@, blobs: d.bytes() }
}

} // verus!
