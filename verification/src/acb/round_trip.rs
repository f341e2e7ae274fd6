//! What the parser gives back of a table that the builder wrote.

use vstd::prelude::*;
use vstd::utf8::{
    encode_utf8, encode_utf8_decode_utf8, encode_utf8_valid_utf8, is_ascii_chars,
    is_ascii_chars_encode_utf8,
};
use crate::acb::builder::{
    cell_bytes, cell_places, constant_place, fits, header_bytes, layout_of, name_place, padding,
    place_in, pools_after_cells, pools_after_columns, pools_after_rows, pools_named, pools_of,
    pools_with, row_bytes, row_places, row_width_of, rows_bytes, schema_bytes, schema_size_of,
    encoded_text, stored_text, table_bytes, type_of, utf_letters, value_bytes, value_place,
    width_or_zero, ColumnDefModel, Place, Pools, StringPool, TableLayout, TableModel,
};
use crate::acb::consts::{
    COLUMN_FLAG_DEFAULT, COLUMN_FLAG_MASK, COLUMN_FLAG_NAME, COLUMN_FLAG_ROW, COLUMN_TYPE_1BYTE2,
    COLUMN_TYPE_2BYTE, COLUMN_TYPE_2BYTE2, COLUMN_TYPE_4BYTE, COLUMN_TYPE_4BYTE2, COLUMN_TYPE_8BYTE,
    COLUMN_TYPE_DATA, COLUMN_TYPE_FLOAT, COLUMN_TYPE_MASK, COLUMN_TYPE_STRING,
};
use crate::acb::utf::{
    flag_refused, next_column, row_of, rows_of, schema_of, stored_per_row, type_width, utf_header,
    utf_table, value_at, wrap32, ColumnModel, SchemaModel, UtfError, UtfHeader, UtfModel,
    ValueModel,
};
use crate::bytes::{
    be16, be16_round_trip, be32, be32_round_trip, be64_round_trip, sign_round_trip, u32_be, zeros,
};
use crate::reader::{cri_text, slice_at, string_at, text_end};

verus! {

/// Text after it was encoded for a table and decoded again.
pub open spec fn text_back(text: Seq<char>) -> Seq<char> {
    cri_text(encoded_text(text))
}

/// A value after it was stored in a table and read again.
pub open spec fn value_back(v: ValueModel) -> ValueModel {
    match v {
        ValueModel::String(s) => ValueModel::String(text_back(s)),
        _ => v,
    }
}

/// Text whose encoding holds no terminator.
pub open spec fn unbroken(text: Seq<char>) -> bool {
    forall|i: int| 0 <= i < encoded_text(text).len() ==> encoded_text(text)[i] != 0
}

/// A value whose text holds no terminator.
pub open spec fn value_unbroken(v: ValueModel) -> bool {
    match v {
        ValueModel::String(s) => unbroken(s),
        _ => true,
    }
}

/// A column as `ColumnDef::constant` or `ColumnDef::per_row` makes it, of a
/// known type and with a name without a terminator.
pub open spec fn column_sound(c: ColumnDefModel) -> bool {
    &&& unbroken(c.name)
    &&& match c.constant {
        Some(v) => c == ColumnDefModel::fixed(c.name, v) && value_unbroken(v),
        None => c == ColumnDefModel::by_row(c.name, c.typ) && type_width(c.typ) is Some,
    }
}

/// A row whose values have the types of their columns.
pub open spec fn row_sound(t: TableModel, row: Map<Seq<char>, ValueModel>) -> bool {
    forall|k: int|
        0 <= k < t.columns.len() && (#[trigger] t.columns[k]).constant is None
            && row.contains_key(t.columns[k].name) ==> type_of(row[t.columns[k].name])
            == t.columns[k].typ && value_unbroken(row[t.columns[k].name])
}

/// A table that the header's fields can describe and a parser accepts.
pub open spec fn table_sound(t: TableModel) -> bool {
    &&& fits(t)
    &&& t.encoding <= 1
    &&& 1 <= t.columns.len() <= 0xFFFF
    &&& layout_of(t).rows_at < 0x8020
    &&& layout_of(t).row_width <= 0xFFFF
    &&& t.rows.len() <= u32::MAX
    &&& unbroken(t.name)
    &&& forall|k: int| 0 <= k < t.columns.len() ==> column_sound(#[trigger] t.columns[k])
    &&& forall|i: int| 0 <= i < t.rows.len() ==> row_sound(t, #[trigger] t.rows[i])
}

/// What a cell without a value reads as. Its text is the table's name, which
/// stands first among the strings.
pub open spec fn default_value(t: TableModel, typ: u8) -> ValueModel {
    if typ == COLUMN_TYPE_DATA {
        ValueModel::Data(Seq::empty())
    } else if typ == COLUMN_TYPE_STRING {
        ValueModel::String(text_back(t.name))
    } else if typ == COLUMN_TYPE_FLOAT {
        ValueModel::F32(0)
    } else if typ == COLUMN_TYPE_8BYTE {
        ValueModel::U64(0)
    } else if typ == COLUMN_TYPE_4BYTE2 {
        ValueModel::I32(0)
    } else if typ == COLUMN_TYPE_4BYTE {
        ValueModel::U32(0)
    } else if typ == COLUMN_TYPE_2BYTE2 {
        ValueModel::I16(0)
    } else if typ == COLUMN_TYPE_2BYTE {
        ValueModel::U16(0)
    } else if typ == COLUMN_TYPE_1BYTE2 {
        ValueModel::I8(0)
    } else {
        ValueModel::U8(0)
    }
}

/// What the cell of a per-row column reads as.
pub open spec fn cell_back(
    t: TableModel,
    row: Map<Seq<char>, ValueModel>,
    c: ColumnDefModel,
) -> ValueModel {
    if row.contains_key(c.name) {
        value_back(row[c.name])
    } else {
        default_value(t, c.typ)
    }
}

/// The names of the per-row columns among the first `n`, as they are read.
pub open spec fn keys_back(t: TableModel, n: nat) -> Seq<Seq<char>>
    decreases n,
{
    if n == 0 {
        Seq::empty()
    } else {
        let c = t.columns[n - 1];
        let rest = keys_back(t, (n - 1) as nat);
        if c.constant is Some { rest } else { rest.push(text_back(c.name)) }
    }
}

/// The constants of the first `n` columns, as they are read.
pub open spec fn constants_back(t: TableModel, n: nat) -> Map<Seq<char>, ValueModel>
    decreases n,
{
    if n == 0 {
        Map::empty()
    } else {
        let c = t.columns[n - 1];
        let rest = constants_back(t, (n - 1) as nat);
        match c.constant {
            Some(v) => rest.insert(text_back(c.name), value_back(v)),
            None => rest,
        }
    }
}

/// A row as it is read, after its first `n` columns.
pub open spec fn row_back(t: TableModel, row: Map<Seq<char>, ValueModel>, n: nat) -> Map<
    Seq<char>,
    ValueModel,
>
    decreases n,
{
    if n == 0 {
        constants_back(t, t.columns.len())
    } else {
        let c = t.columns[n - 1];
        let rest = row_back(t, row, (n - 1) as nat);
        if c.constant is Some { rest } else { rest.insert(text_back(c.name), cell_back(t, row, c)) }
    }
}

/// The header of a table as it is read.
pub open spec fn header_back(t: TableModel) -> UtfHeader {
    let l = layout_of(t);
    UtfHeader {
        table_size: (l.size - 8) as u32,
        version: t.encoding,
        row_offset: (l.rows_at - 8) as u16,
        string_table_offset: (l.strings_at - 8) as u32,
        data_offset: (l.data_at - 8) as u32,
        table_name_offset: 0,
        number_of_fields: t.columns.len() as u16,
        row_size: l.row_width as u16,
        number_of_rows: t.rows.len() as u32,
    }
}

/// A table as it is read.
pub open spec fn table_back(t: TableModel) -> UtfModel {
    UtfModel {
        header: header_back(t),
        name: text_back(t.name),
        keys: keys_back(t, t.columns.len()),
        constants: constants_back(t, t.columns.len()),
        rows: Seq::new(t.rows.len(), |i: int| row_back(t, t.rows[i], t.columns.len())),
    }
}

/// Whether a text stands at a place of a string pool.
spec fn text_stands(data: Seq<u8>, at: int, text: Seq<char>) -> bool {
    &&& 0 <= at
    &&& at + stored_text(text).len() <= data.len()
    &&& data.subrange(at, at + stored_text(text).len()) == stored_text(text)
}

/// Whether every known text stands where the pool says.
spec fn pool_sound(p: StringPool) -> bool {
    forall|s: Seq<char>| #[trigger]
        p.offsets.contains_key(s) ==> text_stands(p.data, p.offsets[s] as int, s)
}

/// Whether a value stands at its place in the pools.
spec fn placed(p: Pools, v: ValueModel, at: Place) -> bool {
    match v {
        ValueModel::String(s) => at is Some && text_stands(p.strings.data, at->Some_0.0 as int, s),
        ValueModel::Data(d) => if d.len() == 0 {
            at is None
        } else {
            &&& at is Some
            &&& at->Some_0.1 == d.len()
            &&& at->Some_0.0 + d.len() <= p.blobs.len()
            &&& p.blobs.subrange(at->Some_0.0 as int, at->Some_0.0 + d.len()) == d
        },
        _ => true,
    }
}

spec fn is_prefix(a: Seq<u8>, b: Seq<u8>) -> bool {
    a.len() <= b.len() && a == b.subrange(0, a.len() as int)
}

/// Whether pools only grew.
spec fn grew(p: Pools, q: Pools) -> bool {
    is_prefix(p.strings.data, q.strings.data) && is_prefix(p.blobs, q.blobs)
}

spec fn pools_small(p: Pools) -> bool {
    p.strings.data.len() <= u32::MAX && p.blobs.len() <= u32::MAX
}

proof fn prefix_transitive(a: Seq<u8>, b: Seq<u8>, c: Seq<u8>)
    requires
        is_prefix(a, b),
        is_prefix(b, c),
    ensures
        is_prefix(a, c),
{
    assert(a =~= c.subrange(0, a.len() as int)) by {
        assert forall|i: int| 0 <= i < a.len() implies a[i] == c[i] by {
            assert(a[i] == b.subrange(0, a.len() as int)[i]);
            assert(b[i] == c.subrange(0, b.len() as int)[i]);
        }
    }
}

proof fn prefix_of_sum(a: Seq<u8>, b: Seq<u8>)
    ensures
        is_prefix(a, a + b),
{
    assert(a =~= (a + b).subrange(0, a.len() as int));
}

proof fn prefix_subrange(a: Seq<u8>, b: Seq<u8>, from: int, to: int)
    requires
        is_prefix(a, b),
        0 <= from <= to <= a.len(),
    ensures
        a.subrange(from, to) == b.subrange(from, to),
{
    assert(a.subrange(from, to) =~= b.subrange(from, to)) by {
        assert forall|i: int| from <= i < to implies a[i] == b[i] by {
            assert(a[i] == b.subrange(0, a.len() as int)[i]);
        }
    }
}

proof fn placed_grows(p: Pools, q: Pools, v: ValueModel, at: Place)
    requires
        placed(p, v, at),
        grew(p, q),
    ensures
        placed(q, v, at),
{
    match v {
        ValueModel::String(s) => {
            let o = at->Some_0.0 as int;
            prefix_subrange(p.strings.data, q.strings.data, o, o + stored_text(s).len());
        },
        ValueModel::Data(d) => {
            if d.len() > 0 {
                let o = at->Some_0.0 as int;
                prefix_subrange(p.blobs, q.blobs, o, o + d.len());
            }
        },
        _ => {},
    }
}

/// A text that was asked for stands at its place afterwards.
proof fn text_pooled(p: StringPool, s: Seq<char>)
    requires
        pool_sound(p),
        p.with(s).data.len() <= u32::MAX,
    ensures
        pool_sound(p.with(s)),
        is_prefix(p.data, p.with(s).data),
        text_stands(p.with(s).data, p.place(s) as int, s),
{
    let q = p.with(s);
    prefix_of_sum(p.data, stored_text(s));
    if s.len() > 0 && p.offsets.contains_key(s) {
        assert(is_prefix(p.data, p.data)) by {
            assert(p.data =~= p.data.subrange(0, p.data.len() as int));
        }
    } else {
        assert(q.data == p.data + stored_text(s));
        assert(q.data.subrange(p.data.len() as int, (p.data.len() + stored_text(s).len()) as int)
            =~= stored_text(s));
        assert forall|u: Seq<char>| #[trigger] q.offsets.contains_key(u) implies text_stands(
            q.data,
            q.offsets[u] as int,
            u,
        ) by {
            if p.offsets.contains_key(u) && q.offsets[u] == p.offsets[u] {
                let o = p.offsets[u] as int;
                prefix_subrange(p.data, q.data, o, o + stored_text(u).len());
            }
        }
    }
}

/// A value that went into the pools stands at its place afterwards.
proof fn value_pooled(p: Pools, alignment: nat, v: ValueModel)
    requires
        pool_sound(p.strings),
        pools_small(pools_with(p, alignment, v)),
    ensures
        pool_sound(pools_with(p, alignment, v).strings),
        grew(p, pools_with(p, alignment, v)),
        placed(pools_with(p, alignment, v), v, value_place(p, alignment, v)),
{
    let q = pools_with(p, alignment, v);
    assert(p.strings.data =~= p.strings.data.subrange(0, p.strings.data.len() as int));
    assert(p.blobs =~= p.blobs.subrange(0, p.blobs.len() as int));
    match v {
        ValueModel::String(s) => {
            text_pooled(p.strings, s);
        },
        ValueModel::Data(d) => {
            if d.len() > 0 {
                let pad = zeros(padding(p.blobs.len() as int, alignment as int));
                assert(q.blobs == p.blobs + pad + d);
                let o = p.blobs.len() + pad.len();
                assert(q.blobs.subrange(o as int, (o + d.len()) as int) =~= d);
                assert(is_prefix(p.blobs, q.blobs)) by {
                    assert(p.blobs =~= q.blobs.subrange(0, p.blobs.len() as int));
                }
            }
        },
        _ => {},
    }
}

/// The pools never shrink from the columns on.
proof fn columns_grow(t: TableModel, k: nat, n: nat)
    requires
        k <= n <= t.columns.len(),
    ensures
        grew(pools_after_columns(t, k), pools_after_columns(t, n)),
    decreases n,
{
    let q = pools_after_columns(t, n);
    if k == n {
        assert(q.strings.data =~= q.strings.data.subrange(0, q.strings.data.len() as int));
        assert(q.blobs =~= q.blobs.subrange(0, q.blobs.len() as int));
    } else {
        let m = (n - 1) as nat;
        let p = pools_after_columns(t, m);
        columns_grow(t, k, m);
        column_grows(t, m);
        prefix_transitive(pools_after_columns(t, k).strings.data, p.strings.data, q.strings.data);
        prefix_transitive(pools_after_columns(t, k).blobs, p.blobs, q.blobs);
    }
}

/// A text or a value only appends to the pools.
proof fn pooling_grows(p: Pools, alignment: nat, v: ValueModel)
    ensures
        grew(p, pools_with(p, alignment, v)),
{
    assert(p.strings.data =~= p.strings.data.subrange(0, p.strings.data.len() as int));
    assert(p.blobs =~= p.blobs.subrange(0, p.blobs.len() as int));
    match v {
        ValueModel::String(s) => {
            prefix_of_sum(p.strings.data, stored_text(s));
        },
        ValueModel::Data(d) => {
            if d.len() > 0 {
                let q = pools_with(p, alignment, v);
                assert(p.blobs =~= q.blobs.subrange(0, p.blobs.len() as int));
            }
        },
        _ => {},
    }
}

/// One column only appends to the pools, first its name, then its constant.
proof fn column_grows(t: TableModel, m: nat)
    requires
        m < t.columns.len(),
    ensures
        grew(
            pools_after_columns(t, m),
            pools_named(pools_after_columns(t, m), t.columns[m as int]),
        ),
        grew(
            pools_named(pools_after_columns(t, m), t.columns[m as int]),
            pools_after_columns(t, m + 1),
        ),
        grew(pools_after_columns(t, m), pools_after_columns(t, m + 1)),
{
    let p = pools_after_columns(t, m);
    let c = t.columns[m as int];
    let r = pools_named(p, c);
    let q = pools_after_columns(t, m + 1);
    pooling_grows(p, t.data_item_alignment, ValueModel::String(c.name));
    assert(r == pools_with(p, t.data_item_alignment, ValueModel::String(c.name)));
    match c.constant {
        Some(v) => {
            pooling_grows(r, t.data_item_alignment, v);
        },
        None => {
            pooling_grows(r, t.data_item_alignment, ValueModel::U8(0));
        },
    }
    prefix_transitive(p.strings.data, r.strings.data, q.strings.data);
    prefix_transitive(p.blobs, r.blobs, q.blobs);
}

proof fn cells_grow(t: TableModel, start: Pools, row: Map<Seq<char>, ValueModel>, k: nat, n: nat)
    requires
        k <= n <= t.columns.len(),
    ensures
        grew(pools_after_cells(t, start, row, k), pools_after_cells(t, start, row, n)),
    decreases n,
{
    let q = pools_after_cells(t, start, row, n);
    if k == n {
        assert(q.strings.data =~= q.strings.data.subrange(0, q.strings.data.len() as int));
        assert(q.blobs =~= q.blobs.subrange(0, q.blobs.len() as int));
    } else {
        let m = (n - 1) as nat;
        let o = pools_after_cells(t, start, row, k);
        let p = pools_after_cells(t, start, row, m);
        cells_grow(t, start, row, k, m);
        let c = t.columns[m as int];
        if c.constant is None && row.contains_key(c.name) {
            pooling_grows(p, t.data_item_alignment, row[c.name]);
        } else {
            pooling_grows(p, t.data_item_alignment, ValueModel::U8(0));
        }
        prefix_transitive(o.strings.data, p.strings.data, q.strings.data);
        prefix_transitive(o.blobs, p.blobs, q.blobs);
    }
}

proof fn rows_grow(t: TableModel, k: nat, n: nat)
    requires
        k <= n <= t.rows.len(),
    ensures
        grew(pools_after_rows(t, k), pools_after_rows(t, n)),
    decreases n,
{
    let q = pools_after_rows(t, n);
    if k == n {
        assert(q.strings.data =~= q.strings.data.subrange(0, q.strings.data.len() as int));
        assert(q.blobs =~= q.blobs.subrange(0, q.blobs.len() as int));
    } else {
        let m = (n - 1) as nat;
        let o = pools_after_rows(t, k);
        let p = pools_after_rows(t, m);
        rows_grow(t, k, m);
        cells_grow(t, p, t.rows[m as int], 0, t.columns.len());
        prefix_transitive(o.strings.data, p.strings.data, q.strings.data);
        prefix_transitive(o.blobs, p.blobs, q.blobs);
    }
}

/// All pools along the way are prefixes of the finished ones.
proof fn columns_within(t: TableModel, k: nat)
    requires
        k <= t.columns.len(),
    ensures
        grew(pools_after_columns(t, k), pools_of(t)),
{
    columns_grow(t, k, t.columns.len());
    rows_grow(t, 0, t.rows.len());
    let p = pools_after_columns(t, k);
    let r = pools_after_rows(t, 0);
    prefix_transitive(p.strings.data, r.strings.data, pools_of(t).strings.data);
    prefix_transitive(p.blobs, r.blobs, pools_of(t).blobs);
}

proof fn cells_within(t: TableModel, i: nat, k: nat)
    requires
        i < t.rows.len(),
        k <= t.columns.len(),
    ensures
        grew(pools_after_cells(t, pools_after_rows(t, i), t.rows[i as int], k), pools_of(t)),
{
    let start = pools_after_rows(t, i);
    cells_grow(t, start, t.rows[i as int], k, t.columns.len());
    rows_grow(t, i + 1, t.rows.len());
    let p = pools_after_cells(t, start, t.rows[i as int], k);
    let r = pools_after_rows(t, i + 1);
    prefix_transitive(p.strings.data, r.strings.data, pools_of(t).strings.data);
    prefix_transitive(p.blobs, r.blobs, pools_of(t).blobs);
}

/// The finished pools of a table that fits have 32-bit lengths.
proof fn finished_small(t: TableModel)
    requires
        fits(t),
    ensures
        pools_small(pools_of(t)),
{
    reveal(layout_of);
    let l = layout_of(t);
    assert(l.row_width * t.rows.len() >= 0) by (nonlinear_arith)
        requires
            l.row_width >= 0,
            t.rows.len() >= 0,
    ;
}

/// The texts known after `k` columns stand where the pool says, the table's
/// name stands first.
proof fn columns_sound(t: TableModel, k: nat)
    requires
        fits(t),
        k <= t.columns.len(),
    ensures
        pool_sound(pools_after_columns(t, k).strings),
        text_stands(pools_after_columns(t, k).strings.data, 0, t.name),
    decreases k,
{
    finished_small(t);
    if k == 0 {
        let d = pools_after_columns(t, 0).strings.data;
        assert(d =~= stored_text(t.name));
        assert(d.subrange(0, stored_text(t.name).len() as int) =~= stored_text(t.name));
    } else {
        let m = (k - 1) as nat;
        columns_sound(t, m);
        columns_within(t, k);
        column_grows(t, m);
        let p = pools_after_columns(t, m);
        let c = t.columns[m as int];
        let r = pools_named(p, c);
        text_pooled(p.strings, c.name);
        if let Some(v) = c.constant {
            value_pooled(r, t.data_item_alignment, v);
        }
        prefix_subrange(
            p.strings.data,
            pools_after_columns(t, k).strings.data,
            0,
            stored_text(t.name).len() as int,
        );
    }
}

/// A column's name and constant stand at their places in the finished pools.
proof fn column_placed(t: TableModel, k: nat)
    requires
        fits(t),
        k < t.columns.len(),
    ensures
        text_stands(pools_of(t).strings.data, name_place(t, k) as int, t.columns[k as int].name),
        t.columns[k as int].constant is Some ==> placed(
            pools_of(t),
            t.columns[k as int].constant->Some_0,
            constant_place(t, k),
        ),
{
    finished_small(t);
    columns_sound(t, k);
    columns_within(t, k + 1);
    column_grows(t, k);
    let p = pools_after_columns(t, k);
    let c = t.columns[k as int];
    let r = pools_named(p, c);
    let q = pools_after_columns(t, k + 1);
    text_pooled(p.strings, c.name);
    prefix_transitive(r.strings.data, q.strings.data, pools_of(t).strings.data);
    prefix_subrange(
        r.strings.data,
        pools_of(t).strings.data,
        name_place(t, k) as int,
        name_place(t, k) + stored_text(c.name).len(),
    );
    if let Some(v) = c.constant {
        value_pooled(r, t.data_item_alignment, v);
        placed_grows(q, pools_of(t), v, constant_place(t, k));
    }
}

/// The texts known before row `i` stand where the pool says.
proof fn rows_sound(t: TableModel, i: nat)
    requires
        fits(t),
        i <= t.rows.len(),
    ensures
        pool_sound(pools_after_rows(t, i).strings),
    decreases i,
{
    if i == 0 {
        columns_sound(t, t.columns.len());
    } else {
        let m = (i - 1) as nat;
        rows_sound(t, m);
        cells_placed(t, m, t.columns.len());
    }
}

/// After `n` columns of a row, each pooled value stands at its place.
proof fn cells_placed(t: TableModel, i: nat, n: nat)
    requires
        fits(t),
        i < t.rows.len(),
        n <= t.columns.len(),
        pool_sound(pools_after_rows(t, i).strings),
    ensures
        ({
            let start = pools_after_rows(t, i);
            let row = t.rows[i as int];
            let p = pools_after_cells(t, start, row, n);
            let m = cell_places(t, start, row, n);
            &&& pool_sound(p.strings)
            &&& forall|s: Seq<char>| #[trigger]
                m.contains_key(s) ==> row.contains_key(s) && placed(p, row[s], Some(m[s]))
            &&& forall|k: int|
                0 <= k < n && (#[trigger] t.columns[k]).constant is None && row.contains_key(
                    t.columns[k].name,
                ) ==> placed(p, row[t.columns[k].name], place_in(m, t.columns[k].name))
        }),
    decreases n,
{
    let start = pools_after_rows(t, i);
    let row = t.rows[i as int];
    let p = pools_after_cells(t, start, row, n);
    let m = cell_places(t, start, row, n);
    if n > 0 {
        let j = (n - 1) as nat;
        cells_placed(t, i, j);
        cells_within(t, i, n);
        finished_small(t);
        let q = pools_after_cells(t, start, row, j);
        let w = cell_places(t, start, row, j);
        let c = t.columns[j as int];
        cells_grow(t, start, row, j, n);
        assert forall|s: Seq<char>| #[trigger] w.contains_key(s) implies placed(
            p,
            row[s],
            Some(w[s]),
        ) by {
            placed_grows(q, p, row[s], Some(w[s]));
        }
        assert forall|k: int|
            0 <= k < j && (#[trigger] t.columns[k]).constant is None && row.contains_key(
                t.columns[k].name,
            ) implies placed(p, row[t.columns[k].name], place_in(w, t.columns[k].name)) by {
            placed_grows(q, p, row[t.columns[k].name], place_in(w, t.columns[k].name));
        }
        if c.constant is None && row.contains_key(c.name) {
            value_pooled(q, t.data_item_alignment, row[c.name]);
        }
    }
}

/// A stored text is found from its place.
proof fn text_found(d: Seq<u8>, base: nat, pool: Seq<u8>, at: nat, text: Seq<char>)
    requires
        base + pool.len() <= d.len(),
        d.subrange(base as int, (base + pool.len()) as int) == pool,
        text_stands(pool, at as int, text),
        unbroken(text),
    ensures
        string_at(d, base + at) == Some(text_back(text)),
{
    let e = encoded_text(text);
    let s = stored_text(text);
    let p = base + at;
    assert forall|j: int| p <= j < p + s.len() implies #[trigger] d[j] == s[j - p] by {
        assert(s[j - p] == pool.subrange(at as int, (at + s.len()) as int)[j - p]);
        assert(pool[j - base] == d.subrange(base as int, (base + pool.len()) as int)[j - base]);
    }
    assert(s[e.len() as int] == 0);
    assert(d[(p + e.len()) as int] == 0);
    assert forall|j: int| p <= j < p + e.len() implies #[trigger] d[j] == e[j - p] by {
        assert(s[j - p] == e[j - p]);
    }
    terminator_found(d, p, p + e.len());
    assert(d.subrange(p as int, (p + e.len()) as int) =~= e);
}

proof fn terminator_found(d: Seq<u8>, pos: nat, z: nat)
    requires
        pos <= z < d.len(),
        d[z as int] == 0,
        forall|i: int| pos <= i < z ==> d[i] != 0,
    ensures
        text_end(d, pos) == Some(z),
    decreases z - pos,
{
    if pos < z {
        terminator_found(d, pos + 1, z);
    }
}

/// The flags and the type come back out of a column's info byte.
proof fn info_byte(flag: u8, typ: u8)
    requires
        flag == COLUMN_FLAG_NAME | COLUMN_FLAG_DEFAULT || flag == COLUMN_FLAG_NAME
            | COLUMN_FLAG_ROW,
        type_width(typ) is Some,
    ensures
        (flag | typ) & COLUMN_FLAG_MASK == flag,
        (flag | typ) & COLUMN_TYPE_MASK == typ,
        !flag_refused(flag),
        flag == COLUMN_FLAG_NAME | COLUMN_FLAG_DEFAULT ==> flag & COLUMN_FLAG_DEFAULT != 0,
        flag == COLUMN_FLAG_NAME | COLUMN_FLAG_ROW ==> flag & COLUMN_FLAG_DEFAULT == 0 && flag
            & COLUMN_FLAG_ROW != 0,
{
    assert(0x10u8 | 0x20u8 == 0x30u8) by (bit_vector);
    assert(0x10u8 | 0x40u8 == 0x50u8) by (bit_vector);
    assert((flag == 0x30u8 || flag == 0x50u8) && typ < 16u8 ==> (flag | typ) & 0xF0u8 == flag && (
    flag | typ) & 0x0Fu8 == typ && flag & 0x10u8 != 0 && flag & 0x80u8 == 0 && (flag == 0x30u8
        ==> flag & 0x20u8 != 0) && (flag == 0x50u8 ==> flag & 0x20u8 == 0 && flag & 0x40u8 != 0))
        by (bit_vector);
}

/// The bytes of a value have the width of its type.
proof fn value_width(v: ValueModel, at: Place)
    ensures
        type_width(type_of(v)) == Some(value_bytes(v, at).len()),
{
    match v {
        ValueModel::U64(n) => be64_round_trip(n),
        _ => {},
    }
}

/// Where the schema, the rows and the pools stand among the bytes.
proof fn parts_stand(t: TableModel)
    requires
        table_sound(t),
    ensures
        ({
            let l = layout_of(t);
            let b = table_bytes(t);
            &&& b.len() == l.size
            &&& header_bytes(t).len() == 32
            &&& b.subrange(0, 32) == header_bytes(t)
            &&& b.subrange(32, l.rows_at as int) == schema_bytes(t, t.columns.len())
            &&& b.subrange(l.rows_at as int, l.strings_at as int) == rows_bytes(t, t.rows.len())
            &&& b.subrange(l.strings_at as int, l.strings_end as int) == pools_of(t).strings.data
            &&& b.subrange(l.data_at as int, l.data_end as int) == pools_of(t).blobs
            &&& 32 <= l.rows_at <= l.strings_at <= l.strings_end
            &&& l.strings_end == l.strings_at + pools_of(t).strings.data.len()
            &&& l.strings_end <= l.data_at <= l.data_end <= l.size <= u32::MAX
            &&& l.data_end == l.data_at + pools_of(t).blobs.len()
            &&& l.rows_at == 32 + schema_size_of(t, t.columns.len())
            &&& l.row_width == row_width_of(t, t.columns.len())
        }),
{
    reveal(layout_of);
    reveal(table_bytes);
    let l = layout_of(t);
    let b = table_bytes(t);
    schema_len(t, t.columns.len());
    rows_len(t, t.rows.len());
    assert(l.row_width * t.rows.len() == t.rows.len() * l.row_width) by (nonlinear_arith);
    assert(l.row_width * t.rows.len() >= 0) by (nonlinear_arith)
        requires
            l.row_width >= 0,
            t.rows.len() >= 0,
    ;
    assert(header_bytes(t).len() == 32);
    assert(b.subrange(0, 32) =~= header_bytes(t));
    assert(b.subrange(32, l.rows_at as int) =~= schema_bytes(t, t.columns.len()));
    assert(b.subrange(l.rows_at as int, l.strings_at as int) =~= rows_bytes(t, t.rows.len()));
    assert(b.subrange(l.strings_at as int, l.strings_end as int) =~= pools_of(t).strings.data);
    assert(b.subrange(l.data_at as int, l.data_end as int) =~= pools_of(t).blobs);
}

proof fn schema_len(t: TableModel, n: nat)
    requires
        table_sound(t),
        n <= t.columns.len(),
    ensures
        schema_bytes(t, n).len() == schema_size_of(t, n),
    decreases n,
{
    if n > 0 {
        let i = (n - 1) as nat;
        schema_len(t, i);
        assert(column_sound(t.columns[i as int]));
        if let Some(v) = t.columns[i as int].constant {
            value_width(v, constant_place(t, i));
        }
    }
}

proof fn row_len(t: TableModel, row: Map<Seq<char>, ValueModel>, places: Map<Seq<char>, (u32, u32)>, n: nat)
    requires
        table_sound(t),
        row_sound(t, row),
        n <= t.columns.len(),
    ensures
        row_bytes(t, row, places, n).len() == row_width_of(t, n),
    decreases n,
{
    if n > 0 {
        let i = (n - 1) as nat;
        row_len(t, row, places, i);
        let c = t.columns[i as int];
        assert(column_sound(c));
        if c.constant is None && row.contains_key(c.name) {
            value_width(row[c.name], place_in(places, c.name));
        }
    }
}

proof fn rows_len(t: TableModel, n: nat)
    requires
        table_sound(t),
        n <= t.rows.len(),
    ensures
        rows_bytes(t, n).len() == n * row_width_of(t, t.columns.len()),
    decreases n,
{
    let w = row_width_of(t, t.columns.len());
    if n > 0 {
        let i = (n - 1) as nat;
        rows_len(t, i);
        assert(row_sound(t, t.rows[i as int]));
        row_len(t, t.rows[i as int], row_places(t, i), t.columns.len());
        assert(n * w == i * w + w) by (nonlinear_arith)
            requires
                n == i + 1,
        ;
    } else {
        assert(0 * w == 0) by (nonlinear_arith);
    }
}

/// The schema of fewer columns is the front of the schema of more.
proof fn schema_prefix(t: TableModel, k: nat, n: nat)
    requires
        k <= n,
    ensures
        is_prefix(schema_bytes(t, k), schema_bytes(t, n)),
    decreases n,
{
    let b = schema_bytes(t, n);
    if k == n {
        assert(b =~= b.subrange(0, b.len() as int));
    } else {
        let i = (n - 1) as nat;
        schema_prefix(t, k, i);
        let a = schema_bytes(t, i);
        assert(a =~= b.subrange(0, a.len() as int));
        prefix_transitive(schema_bytes(t, k), a, b);
    }
}

proof fn rows_prefix(t: TableModel, k: nat, n: nat)
    requires
        k <= n,
    ensures
        is_prefix(rows_bytes(t, k), rows_bytes(t, n)),
    decreases n,
{
    let b = rows_bytes(t, n);
    if k == n {
        assert(b =~= b.subrange(0, b.len() as int));
    } else {
        let i = (n - 1) as nat;
        rows_prefix(t, k, i);
        let a = rows_bytes(t, i);
        assert(a =~= b.subrange(0, a.len() as int));
        prefix_transitive(rows_bytes(t, k), a, b);
    }
}

proof fn row_prefix(
    t: TableModel,
    row: Map<Seq<char>, ValueModel>,
    places: Map<Seq<char>, (u32, u32)>,
    k: nat,
    n: nat,
)
    requires
        k <= n,
    ensures
        is_prefix(row_bytes(t, row, places, k), row_bytes(t, row, places, n)),
    decreases n,
{
    let b = row_bytes(t, row, places, n);
    if k == n {
        assert(b =~= b.subrange(0, b.len() as int));
    } else {
        let i = (n - 1) as nat;
        row_prefix(t, row, places, k, i);
        let a = row_bytes(t, row, places, i);
        assert(a =~= b.subrange(0, a.len() as int));
        prefix_transitive(row_bytes(t, row, places, k), a, b);
    }
}

/// A part of a part, found from the whole.
proof fn part_of_part(b: Seq<u8>, from: int, to: int, part: Seq<u8>, at: int, end: int)
    requires
        0 <= from <= to <= b.len(),
        b.subrange(from, to) == part,
        0 <= at <= end <= part.len(),
    ensures
        b.subrange(from + at, from + end) == part.subrange(at, end),
{
    assert(b.subrange(from + at, from + end) =~= b.subrange(from, to).subrange(at, end));
}

/// Whether pools stand among some bytes at 32-bit places.
spec fn pools_stand(b: Seq<u8>, strings_at: nat, data_at: nat, p: Pools) -> bool {
    &&& b.len() <= u32::MAX
    &&& strings_at + p.strings.data.len() <= b.len()
    &&& b.subrange(strings_at as int, (strings_at + p.strings.data.len()) as int) == p.strings.data
    &&& data_at + p.blobs.len() <= b.len()
    &&& b.subrange(data_at as int, (data_at + p.blobs.len()) as int) == p.blobs
}

/// A blob in the pools is read back by its place.
proof fn blob_read(b: Seq<u8>, s: nat, d: nat, p: Pools, blob: Seq<u8>, at: Place, pos: nat)
    requires
        pools_stand(b, s, d, p),
        placed(p, ValueModel::Data(blob), at),
        pos + 8 <= b.len(),
        b.subrange(pos as int, (pos + 8) as int) == value_bytes(ValueModel::Data(blob), at),
    ensures
        value_at(b, pos, COLUMN_TYPE_DATA, s as u32, d as u32) == Ok::<ValueModel, UtfError>(
            ValueModel::Data(blob),
        ),
{
    let o: u32 = if blob.len() > 0 { at->Some_0.0 } else { 0 };
    let n: u32 = if blob.len() > 0 { at->Some_0.1 } else { 0 };
    let bytes = value_bytes(ValueModel::Data(blob), at);
    be32_round_trip(o);
    be32_round_trip(n);
    assert(bytes == be32(o) + be32(n));
    assert(bytes.subrange(0, 4) =~= be32(o));
    assert(bytes.subrange(4, 8) =~= be32(n));
    assert(slice_at(b, pos, 8) == bytes);
    assert(wrap32(d as u32 + o) == d + o);
    if blob.len() > 0 {
        part_of_part(b, d as int, (d + p.blobs.len()) as int, p.blobs, o as int, (o + n) as int);
        assert(slice_at(b, (d + o) as nat, n as nat) =~= blob);
    } else {
        assert(blob =~= Seq::empty());
    }
}

/// A text in the pools is read back by its place.
proof fn text_read(b: Seq<u8>, s: nat, d: nat, p: Pools, text: Seq<char>, at: Place, pos: nat)
    requires
        pools_stand(b, s, d, p),
        placed(p, ValueModel::String(text), at),
        unbroken(text),
        pos + 4 <= b.len(),
        b.subrange(pos as int, (pos + 4) as int) == value_bytes(ValueModel::String(text), at),
    ensures
        value_at(b, pos, COLUMN_TYPE_STRING, s as u32, d as u32) == Ok::<ValueModel, UtfError>(
            ValueModel::String(text_back(text)),
        ),
{
    let o = at->Some_0.0;
    be32_round_trip(o);
    assert(value_bytes(ValueModel::String(text), at) == be32(o));
    assert(slice_at(b, pos, 4) == be32(o));
    text_found(b, s, p.strings.data, o as nat, text);
    assert(wrap32(s as u32 + o) == s + o);
}

/// A value whose bytes stand at `pos` is read back from there.
proof fn value_read(b: Seq<u8>, s: nat, d: nat, p: Pools, v: ValueModel, at: Place, pos: nat)
    requires
        pools_stand(b, s, d, p),
        placed(p, v, at),
        value_unbroken(v),
        pos + value_bytes(v, at).len() <= b.len(),
        b.subrange(pos as int, (pos + value_bytes(v, at).len()) as int) == value_bytes(v, at),
    ensures
        value_at(b, pos, type_of(v), s as u32, d as u32) == Ok::<ValueModel, UtfError>(
            value_back(v),
        ),
{
    value_width(v, at);
    let bytes = value_bytes(v, at);
    assert(slice_at(b, pos, bytes.len()) == bytes);
    match v {
        ValueModel::U8(n) => {},
        ValueModel::I8(n) => {
            sign_round_trip(n, 0, 0);
        },
        ValueModel::U16(n) => {
            be16_round_trip(n);
        },
        ValueModel::I16(n) => {
            sign_round_trip(0, n, 0);
            be16_round_trip(crate::bytes::u16_of(n));
        },
        ValueModel::U32(n) => {
            be32_round_trip(n);
        },
        ValueModel::I32(n) => {
            sign_round_trip(0, 0, n);
            be32_round_trip(crate::bytes::u32_of(n));
        },
        ValueModel::U64(n) => {
            be64_round_trip(n);
        },
        ValueModel::F32(n) => {
            be32_round_trip(n);
        },
        ValueModel::String(text) => {
            text_read(b, s, d, p, text, at, pos);
        },
        ValueModel::Data(blob) => {
            blob_read(b, s, d, p, blob, at, pos);
        },
    }
}

/// A cell without a value is read back as its type's default.
proof fn default_read(b: Seq<u8>, s: nat, d: nat, p: Pools, t: TableModel, typ: u8, pos: nat)
    requires
        pools_stand(b, s, d, p),
        text_stands(p.strings.data, 0, t.name),
        unbroken(t.name),
        type_width(typ) is Some,
        pos + width_or_zero(typ) <= b.len(),
        b.subrange(pos as int, (pos + width_or_zero(typ)) as int) == zeros(width_or_zero(typ)),
    ensures
        value_at(b, pos, typ, s as u32, d as u32) == Ok::<ValueModel, UtfError>(
            default_value(t, typ),
        ),
{
    let w = width_or_zero(typ);
    assert(slice_at(b, pos, w) == zeros(w));
    if typ == COLUMN_TYPE_STRING {
        text_found(b, s, p.strings.data, 0, t.name);
    } else if typ == COLUMN_TYPE_8BYTE {
        assert(zeros(8).subrange(4, 8) =~= zeros(4));
    } else if typ == COLUMN_TYPE_DATA {
        assert(zeros(8).subrange(4, 8) =~= zeros(4));
        assert(zeros(8).subrange(0, 4) =~= zeros(4));
    }
}

/// The table's name stands first among the finished strings.
proof fn name_stands(t: TableModel)
    requires
        fits(t),
    ensures
        text_stands(pools_of(t).strings.data, 0, t.name),
{
    columns_sound(t, t.columns.len());
    columns_within(t, t.columns.len());
    prefix_subrange(
        pools_after_columns(t, t.columns.len()).strings.data,
        pools_of(t).strings.data,
        0,
        stored_text(t.name).len() as int,
    );
}

/// The bytes of a header with given fields.
spec fn fields_bytes(k: UtfHeader) -> Seq<u8> {
    utf_letters() + be32(k.table_size) + be16(k.version) + be16(k.row_offset) + be32(
        k.string_table_offset,
    ) + be32(k.data_offset) + be32(k.table_name_offset) + be16(k.number_of_fields) + be16(
        k.row_size,
    ) + be32(k.number_of_rows)
}

/// The fields of a header come back.
proof fn fields_read(k: UtfHeader)
    ensures
        utf_header(fields_bytes(k)) == k,
        u32_be(fields_bytes(k).subrange(0, 4)) == crate::acb::utf::UTF_MAGIC,
{
    let h = fields_bytes(k);
    be32_round_trip(k.table_size);
    be16_round_trip(k.version);
    be16_round_trip(k.row_offset);
    be32_round_trip(k.string_table_offset);
    be32_round_trip(k.data_offset);
    be32_round_trip(k.table_name_offset);
    be16_round_trip(k.number_of_fields);
    be16_round_trip(k.row_size);
    be32_round_trip(k.number_of_rows);
    assert(h.subrange(0, 4) =~= utf_letters());
    assert(h.subrange(4, 8) =~= be32(k.table_size));
    assert(h.subrange(8, 10) =~= be16(k.version));
    assert(h.subrange(10, 12) =~= be16(k.row_offset));
    assert(h.subrange(12, 16) =~= be32(k.string_table_offset));
    assert(h.subrange(16, 20) =~= be32(k.data_offset));
    assert(h.subrange(20, 24) =~= be32(k.table_name_offset));
    assert(h.subrange(24, 26) =~= be16(k.number_of_fields));
    assert(h.subrange(26, 28) =~= be16(k.row_size));
    assert(h.subrange(28, 32) =~= be32(k.number_of_rows));
}

/// The header comes back as it was laid out.
proof fn header_read(t: TableModel)
    requires
        table_sound(t),
    ensures
        utf_header(header_bytes(t)) == header_back(t),
        u32_be(header_bytes(t).subrange(0, 4)) == crate::acb::utf::UTF_MAGIC,
        header_back(t).error() is None,
        header_back(t).rows_at() == layout_of(t).rows_at,
        header_back(t).strings_at() == layout_of(t).strings_at,
        header_back(t).data_at() == layout_of(t).data_at,
{
    header_same(t);
    layout_ordered(t);
    fields_read(header_back(t));
    header_accepted(header_back(t), layout_of(t));
}

/// The header is made of the fields that come back.
proof fn header_same(t: TableModel)
    requires
        table_sound(t),
    ensures
        header_bytes(t) == fields_bytes(header_back(t)),
{
    let k = header_back(t);
    let l = layout_of(t);
    layout_ordered(t);
    assert(((l.rows_at - 8) % 0x1_0000) as u16 == k.row_offset);
    assert((t.columns.len() % 0x1_0000) as u16 == k.number_of_fields);
    assert((l.row_width % 0x1_0000) as u16 == k.row_size);
    assert(wrap32(t.rows.len() as int) == k.number_of_rows);
}

proof fn layout_ordered(t: TableModel)
    requires
        table_sound(t),
    ensures
        ({
            let l = layout_of(t);
            &&& 32 <= l.rows_at <= l.strings_at <= l.strings_end
            &&& l.strings_end <= l.data_at <= l.data_end <= l.size <= u32::MAX
            &&& l.row_width == row_width_of(t, t.columns.len())
        }),
{
    reveal(layout_of);
    let l = layout_of(t);
    assert(l.row_width * t.rows.len() >= 0) by (nonlinear_arith)
        requires
            l.row_width >= 0,
            t.rows.len() >= 0,
    ;
}

/// A parser accepts a header with offsets in order.
proof fn header_accepted(k: UtfHeader, l: TableLayout)
    requires
        32 <= l.rows_at <= l.strings_at <= l.data_at <= l.size <= u32::MAX,
        l.rows_at < 0x8020,
        k.version <= 1,
        k.number_of_fields > 0,
        k.table_size == l.size - 8,
        k.row_offset == l.rows_at - 8,
        k.string_table_offset == l.strings_at - 8,
        k.data_offset == l.data_at - 8,
    ensures
        k.error() is None,
        k.rows_at() == l.rows_at,
        k.strings_at() == l.strings_at,
        k.data_at() == l.data_at,
{
}

/// The columns of a schema as they are read.
pub open spec fn schema_back(t: TableModel, n: nat) -> SchemaModel {
    SchemaModel {
        pos: 32 + schema_size_of(t, n),
        row_width: row_width_of(t, n),
        columns: Seq::new(
            n,
            |i: int|
                ColumnModel {
                    flag: t.columns[i].flag,
                    typ: t.columns[i].typ,
                    name: text_back(t.columns[i].name),
                    offset: if t.columns[i].constant is Some {
                        0
                    } else {
                        row_width_of(t, i as nat) as u32
                    },
                },
        ),
        keys: keys_back(t, n),
        constants: constants_back(t, n),
    }
}

/// The schema bytes of one column.
spec fn column_bytes(c: ColumnDefModel, name: u32, at: Place) -> Seq<u8> {
    seq![c.flag | c.typ] + be32(name) + match c.constant {
        Some(v) => value_bytes(v, at),
        None => Seq::empty(),
    }
}

/// A column whose bytes stand at the schema's position is read back.
proof fn column_read(
    b: Seq<u8>,
    h: UtfHeader,
    p: Pools,
    st: SchemaModel,
    c: ColumnDefModel,
    name: u32,
    at: Place,
)
    requires
        pools_stand(b, h.strings_at() as nat, h.data_at() as nat, p),
        column_sound(c),
        text_stands(p.strings.data, name as int, c.name),
        c.constant is Some ==> placed(p, c.constant->Some_0, at),
        st.pos + column_bytes(c, name, at).len() <= b.len(),
        b.subrange(st.pos as int, (st.pos + column_bytes(c, name, at).len()) as int)
            == column_bytes(c, name, at),
    ensures
        next_column(b, h, st) == Ok::<SchemaModel, UtfError>(
            SchemaModel {
                pos: st.pos + 5 + if c.constant is Some { width_or_zero(c.typ) } else { 0 },
                row_width: st.row_width + if c.constant is Some {
                    0
                } else {
                    width_or_zero(c.typ)
                },
                columns: st.columns.push(
                    ColumnModel {
                        flag: c.flag,
                        typ: c.typ,
                        name: text_back(c.name),
                        offset: if c.constant is Some { 0 } else { st.row_width as u32 },
                    },
                ),
                keys: if c.constant is Some { st.keys } else { st.keys.push(text_back(c.name)) },
                constants: match c.constant {
                    Some(v) => st.constants.insert(text_back(c.name), value_back(v)),
                    None => st.constants,
                },
            },
        ),
{
    let whole = column_bytes(c, name, at);
    let from = st.pos as int;
    let to = from + whole.len();
    assert(b[from] == whole[0]) by {
        assert(b.subrange(from, to)[0] == b[from]);
    }
    be32_round_trip(name);
    part_of_part(b, from, to, whole, 1, 5);
    assert(whole.subrange(1, 5) =~= be32(name));
    assert(slice_at(b, st.pos + 1, 4) == be32(name));
    text_found(b, h.strings_at() as nat, p.strings.data, name as nat, c.name);
    if let Some(v) = c.constant {
        value_width(v, at);
        part_of_part(b, from, to, whole, 5, whole.len() as int);
        assert(whole.subrange(5, whole.len() as int) =~= value_bytes(v, at));
        value_read(b, h.strings_at() as nat, h.data_at() as nat, p, v, at, st.pos + 5);
    }
    info_byte(c.flag, c.typ);
}

/// The bytes of a column stand in the table behind those before it.
proof fn column_stands(t: TableModel, i: nat)
    requires
        table_sound(t),
        i < t.columns.len(),
    ensures
        ({
            let pos = 32 + schema_size_of(t, i);
            let part = column_bytes(t.columns[i as int], name_place(t, i), constant_place(t, i));
            &&& pos + part.len() == 32 + schema_size_of(t, i + 1)
            &&& pos + part.len() <= table_bytes(t).len()
            &&& table_bytes(t).subrange(pos as int, (pos + part.len()) as int) == part
        }),
{
    let b = table_bytes(t);
    let l = layout_of(t);
    parts_stand(t);
    let all = schema_bytes(t, t.columns.len());
    let one = column_bytes(t.columns[i as int], name_place(t, i), constant_place(t, i));
    schema_prefix(t, i + 1, t.columns.len());
    schema_len(t, i);
    schema_len(t, i + 1);
    schema_len(t, t.columns.len());
    let from = schema_size_of(t, i) as int;
    let to = schema_size_of(t, i + 1) as int;
    assert(schema_bytes(t, i + 1) =~= schema_bytes(t, i) + one);
    prefix_subrange(schema_bytes(t, i + 1), all, from, to);
    assert(schema_bytes(t, i + 1).subrange(from, to) =~= one);
    part_of_part(b, 32, l.rows_at as int, all, from, to);
}

/// The finished pools stand in the table.
proof fn table_pools_stand(t: TableModel)
    requires
        table_sound(t),
    ensures
        pools_stand(table_bytes(t), layout_of(t).strings_at, layout_of(t).data_at, pools_of(t)),
{
    parts_stand(t);
}

/// The columns come back as they were defined.
#[verifier::rlimit(60)]
proof fn schema_read(t: TableModel, n: nat)
    requires
        table_sound(t),
        n <= t.columns.len(),
    ensures
        schema_of(table_bytes(t), header_back(t), n) == Ok::<SchemaModel, UtfError>(
            schema_back(t, n),
        ),
    decreases n,
{
    if n == 0 {
        assert(schema_back(t, 0).columns =~= Seq::empty());
    } else {
        let i = (n - 1) as nat;
        let c = t.columns[i as int];
        schema_read(t, i);
        header_read(t);
        table_pools_stand(t);
        column_stands(t, i);
        column_placed(t, i);
        assert(column_sound(c));
        let st = schema_back(t, i);
        column_read(
            table_bytes(t),
            header_back(t),
            pools_of(t),
            st,
            c,
            name_place(t, i),
            constant_place(t, i),
        );
        let after = next_column(table_bytes(t), header_back(t), st)->Ok_0;
        assert(after.columns =~= schema_back(t, n).columns);
    }
}

/// The value of a per-row column comes back from its place in the row.
proof fn cell_read(t: TableModel, i: nat, k: nat)
    requires
        table_sound(t),
        i < t.rows.len(),
        k < t.columns.len(),
        t.columns[k as int].constant is None,
    ensures
        value_at(
            table_bytes(t),
            layout_of(t).rows_at + i * layout_of(t).row_width + row_width_of(t, k),
            t.columns[k as int].typ,
            layout_of(t).strings_at as u32,
            layout_of(t).data_at as u32,
        ) == Ok::<ValueModel, UtfError>(
            cell_back(t, t.rows[i as int], t.columns[k as int]),
        ),
{
    let b = table_bytes(t);
    let l = layout_of(t);
    let c = t.columns[k as int];
    let row = t.rows[i as int];
    let pos = l.rows_at + i * l.row_width + row_width_of(t, k);
    assert(column_sound(c));
    assert(row_sound(t, row));
    cell_stands(t, i, k);
    table_pools_stand(t);
    if row.contains_key(c.name) {
        rows_sound(t, i);
        cells_placed(t, i, t.columns.len());
        cells_within(t, i, t.columns.len());
        let at = place_in(row_places(t, i), c.name);
        let p = pools_after_cells(t, pools_after_rows(t, i), row, t.columns.len());
        placed_grows(p, pools_of(t), row[c.name], at);
        value_read(b, l.strings_at, l.data_at, pools_of(t), row[c.name], at, pos);
    } else {
        name_stands(t);
        default_read(b, l.strings_at, l.data_at, pools_of(t), t, c.typ, pos);
    }
}

/// The values of a row come back as they were given.
proof fn row_read(t: TableModel, i: nat, n: nat)
    requires
        table_sound(t),
        i < t.rows.len(),
        n <= t.columns.len(),
    ensures
        row_of(table_bytes(t), header_back(t), schema_back(t, t.columns.len()), i, n) == Ok::<
            Map<Seq<char>, ValueModel>,
            UtfError,
        >(row_back(t, t.rows[i as int], n)),
    decreases n,
{
    if n > 0 {
        let k = (n - 1) as nat;
        row_read(t, i, k);
        let c = t.columns[k as int];
        let col = schema_back(t, t.columns.len()).columns[k as int];
        assert(column_sound(c));
        if let Some(v) = c.constant {
            value_width(v, None);
        }
        info_byte(c.flag, c.typ);
        assert(col.name == text_back(c.name) && col.flag == c.flag && col.typ == c.typ);
        if c.constant is None {
            header_read(t);
            layout_ordered(t);
            cell_read(t, i, k);
            row_width_grows(t, k, t.columns.len());
            assert(col.offset == row_width_of(t, k));
        } else {
            assert(!stored_per_row(col.flag));
        }
    }
}

proof fn row_width_grows(t: TableModel, k: nat, n: nat)
    requires
        k <= n,
    ensures
        row_width_of(t, k) <= row_width_of(t, n),
    decreases n,
{
    if k < n {
        row_width_grows(t, k, (n - 1) as nat);
    }
}

/// The bytes of a cell stand in its row at the column's offset.
proof fn cell_stands(t: TableModel, i: nat, k: nat)
    requires
        table_sound(t),
        i < t.rows.len(),
        k < t.columns.len(),
    ensures
        ({
            let pos = layout_of(t).rows_at + i * layout_of(t).row_width + row_width_of(t, k);
            let cell = cell_bytes(t.columns[k as int], t.rows[i as int], row_places(t, i));
            &&& pos + cell.len() <= table_bytes(t).len()
            &&& table_bytes(t).subrange(pos as int, (pos + cell.len()) as int) == cell
        }),
{
    let b = table_bytes(t);
    let l = layout_of(t);
    let w = l.row_width;
    let row = t.rows[i as int];
    let places = row_places(t, i);
    let n = t.columns.len();
    let cell = cell_bytes(t.columns[k as int], row, places);
    parts_stand(t);
    assert(row_sound(t, row));
    row_len(t, row, places, k);
    row_len(t, row, places, k + 1);
    row_len(t, row, places, n);
    row_prefix(t, row, places, k + 1, n);
    rows_len(t, i);
    rows_len(t, i + 1);
    rows_len(t, t.rows.len());
    rows_prefix(t, i + 1, t.rows.len());
    let one = row_bytes(t, row, places, n);
    let from = row_width_of(t, k) as int;
    let to = row_width_of(t, k + 1) as int;
    prefix_subrange(row_bytes(t, row, places, k + 1), one, from, to);
    assert(row_bytes(t, row, places, k + 1).subrange(from, to) =~= cell);
    let all = rows_bytes(t, t.rows.len());
    let upto = rows_bytes(t, i + 1);
    let start = (i * w) as int;
    assert((i + 1) * w == i * w + w) by (nonlinear_arith);
    prefix_subrange(upto, all, start, start + w);
    assert(upto.subrange(start, start + w) =~= one);
    part_of_part(b, l.rows_at as int, l.strings_at as int, all, start, start + w);
    part_of_part(b, l.rows_at + start, l.rows_at + start + w, one, from, to);
}

proof fn rows_read(t: TableModel, n: nat)
    requires
        table_sound(t),
        n <= t.rows.len(),
    ensures
        rows_of(table_bytes(t), header_back(t), schema_back(t, t.columns.len()), n) == Ok::<
            Seq<Map<Seq<char>, ValueModel>>,
            UtfError,
        >(Seq::new(n, |i: int| row_back(t, t.rows[i], t.columns.len()))),
    decreases n,
{
    let done = Seq::new(n, |i: int| row_back(t, t.rows[i], t.columns.len()));
    if n == 0 {
        assert(done =~= Seq::empty());
    } else {
        let k = (n - 1) as nat;
        rows_read(t, k);
        row_read(t, k, t.columns.len());
        assert(done =~= Seq::new(k, |i: int| row_back(t, t.rows[i], t.columns.len())).push(
            row_back(t, t.rows[k as int], t.columns.len()),
        ));
    }
}

/// A parser reads from a built table its name, its columns, its constants and
/// every cell, with texts as they come out of the table's encoding.
pub proof fn build_then_parse(t: TableModel)
    requires
        table_sound(t),
    ensures
        utf_table(table_bytes(t), 0) == Ok::<UtfModel, UtfError>(table_back(t)),
{
    let b = table_bytes(t);
    parts_stand(t);
    header_read(t);
    assert(slice_at(b, 0, 32) == header_bytes(t));
    assert(slice_at(b, 0, 4) =~= header_bytes(t).subrange(0, 4));
    name_stands(t);
    text_found(b, layout_of(t).strings_at, pools_of(t).strings.data, 0, t.name);
    schema_read(t, t.columns.len());
    rows_read(t, t.rows.len());
}

/// Text whose encoding is its UTF-8 form comes back as it was.
pub proof fn own_encoding_comes_back(text: Seq<char>)
    requires
        encoded_text(text) == encode_utf8(text),
    ensures
        text_back(text) == text,
{
    encode_utf8_valid_utf8(text);
    encode_utf8_decode_utf8(text);
}

/// Whether text is ASCII without a terminator.
pub open spec fn plain(s: Seq<char>) -> bool {
    forall|i: int| 0 <= i < s.len() ==> '\0' < #[trigger] s[i] <= '\u{7f}'
}

/// ASCII text without a terminator can be stored, and comes back as it was.
pub proof fn plain_comes_back(s: Seq<char>)
    requires
        plain(s),
    ensures
        unbroken(s),
        text_back(s) == s,
{
    assert(is_ascii_chars(s));
    is_ascii_chars_encode_utf8(s);
    own_encoding_comes_back(s);
    assert forall|i: int| 0 <= i < encoded_text(s).len() implies encoded_text(s)[i] != 0 by {
        assert(s[i] as u8 == encode_utf8(s)[i]);
    }
}

/// A value whose text, if it is one, is plain.
pub open spec fn value_plain(v: ValueModel) -> bool {
    match v {
        ValueModel::String(s) => plain(s),
        _ => true,
    }
}

/// A column as `ColumnDef::constant` or `ColumnDef::per_row` makes it, of a
/// known type and with plain texts.
pub open spec fn column_plain(c: ColumnDefModel) -> bool {
    &&& plain(c.name)
    &&& match c.constant {
        Some(v) => c == ColumnDefModel::fixed(c.name, v) && value_plain(v),
        None => c == ColumnDefModel::by_row(c.name, c.typ) && type_width(c.typ) is Some,
    }
}

/// A row with a value for every per-row column, of the column's type and with
/// plain text.
pub open spec fn row_plain(t: TableModel, row: Map<Seq<char>, ValueModel>) -> bool {
    forall|k: int|
        0 <= k < t.columns.len() && (#[trigger] t.columns[k]).constant is None ==> {
            &&& row.contains_key(t.columns[k].name)
            &&& type_of(row[t.columns[k].name]) == t.columns[k].typ
            &&& value_plain(row[t.columns[k].name])
        }
}

/// A table of plain texts whose columns have different names, with every cell
/// filled, that the header's fields can describe.
pub open spec fn table_plain(t: TableModel) -> bool {
    &&& fits(t)
    &&& t.encoding <= 1
    &&& 1 <= t.columns.len() <= 0xFFFF
    &&& layout_of(t).rows_at < 0x8020
    &&& layout_of(t).row_width <= 0xFFFF
    &&& t.rows.len() <= u32::MAX
    &&& plain(t.name)
    &&& forall|k: int| 0 <= k < t.columns.len() ==> column_plain(#[trigger] t.columns[k])
    &&& forall|i: int| 0 <= i < t.rows.len() ==> row_plain(t, #[trigger] t.rows[i])
    &&& forall|j: int, k: int|
        0 <= j < k < t.columns.len() ==> (#[trigger] t.columns[j]).name != (
        #[trigger] t.columns[k]).name
}

/// The names of the per-row columns among the first `n`.
pub open spec fn per_row_names(t: TableModel, n: nat) -> Seq<Seq<char>>
    decreases n,
{
    if n == 0 {
        Seq::empty()
    } else {
        let c = t.columns[n - 1];
        let rest = per_row_names(t, (n - 1) as nat);
        if c.constant is Some { rest } else { rest.push(c.name) }
    }
}

/// What a column holds in a row that fills every cell.
pub open spec fn cell_of(row: Map<Seq<char>, ValueModel>, c: ColumnDefModel) -> ValueModel {
    match c.constant {
        Some(v) => v,
        None => row[c.name],
    }
}

/// A table of plain texts is one that a parser accepts.
pub proof fn plain_table_sound(t: TableModel)
    requires
        table_plain(t),
    ensures
        table_sound(t),
{
    plain_comes_back(t.name);
    assert forall|k: int| 0 <= k < t.columns.len() implies column_sound(#[trigger] t.columns[k]) by {
        let c = t.columns[k];
        assert(column_plain(c));
        plain_comes_back(c.name);
        if let Some(ValueModel::String(s)) = c.constant {
            plain_comes_back(s);
        }
    }
    assert forall|i: int| 0 <= i < t.rows.len() implies row_sound(t, #[trigger] t.rows[i]) by {
        let row = t.rows[i];
        assert(row_plain(t, row));
        assert forall|k: int|
            0 <= k < t.columns.len() && (#[trigger] t.columns[k]).constant is None
                && row.contains_key(t.columns[k].name) implies type_of(row[t.columns[k].name])
            == t.columns[k].typ && value_unbroken(row[t.columns[k].name]) by {
            if let ValueModel::String(s) = row[t.columns[k].name] {
                plain_comes_back(s);
            }
        }
    }
}

proof fn plain_value_back(v: ValueModel)
    requires
        value_plain(v),
    ensures
        value_back(v) == v,
{
    if let ValueModel::String(s) = v {
        plain_comes_back(s);
    }
}

proof fn names_back(t: TableModel, n: nat)
    requires
        table_plain(t),
        n <= t.columns.len(),
    ensures
        keys_back(t, n) == per_row_names(t, n),
    decreases n,
{
    if n > 0 {
        names_back(t, (n - 1) as nat);
        assert(column_plain(t.columns[n - 1]));
        plain_comes_back(t.columns[n - 1].name);
    }
}

proof fn constants_come_back(t: TableModel, n: nat)
    requires
        table_plain(t),
        n <= t.columns.len(),
    ensures
        forall|k: int|
            0 <= k < n && (#[trigger] t.columns[k]).constant is Some ==> constants_back(
                t,
                n,
            ).contains_key(t.columns[k].name) && constants_back(t, n)[t.columns[k].name]
                == t.columns[k].constant->Some_0,
        forall|key: Seq<char>| #[trigger]
            constants_back(t, n).contains_key(key) ==> exists|k: int|
                0 <= k < n && (#[trigger] t.columns[k]).name == key,
    decreases n,
{
    if n > 0 {
        let m = (n - 1) as nat;
        constants_come_back(t, m);
        let c = t.columns[n - 1];
        assert(column_plain(c));
        plain_comes_back(c.name);
        if c.constant is Some {
            plain_value_back(c.constant->Some_0);
        }
        assert forall|key: Seq<char>| #[trigger]
            constants_back(t, n).contains_key(key) implies exists|k: int|
            0 <= k < n && (#[trigger] t.columns[k]).name == key by {
            if constants_back(t, m).contains_key(key) {
                let k = choose|k: int| 0 <= k < m && (#[trigger] t.columns[k]).name == key;
                assert(t.columns[k].name == key);
            } else {
                assert(c.name == key);
            }
        }
    }
}

proof fn row_comes_back(t: TableModel, i: int, n: nat)
    requires
        table_plain(t),
        0 <= i < t.rows.len(),
        n <= t.columns.len(),
    ensures
        ({
            let back = row_back(t, t.rows[i], n);
            &&& forall|k: int|
                0 <= k < t.columns.len() && (k < n || t.columns[k].constant is Some)
                    ==> back.contains_key((#[trigger] t.columns[k]).name)
                    && back[t.columns[k].name] == cell_of(t.rows[i], t.columns[k])
            &&& forall|key: Seq<char>| #[trigger]
                back.contains_key(key) ==> exists|k: int|
                    0 <= k < t.columns.len() && (#[trigger] t.columns[k]).name == key
        }),
    decreases n,
{
    if n == 0 {
        constants_come_back(t, t.columns.len());
    } else {
        let m = (n - 1) as nat;
        row_comes_back(t, i, m);
        let row = t.rows[i];
        let c = t.columns[n - 1];
        assert(column_plain(c));
        assert(row_plain(t, row));
        plain_comes_back(c.name);
        if c.constant is None {
            plain_value_back(row[c.name]);
            let before = row_back(t, row, m);
            let back = row_back(t, row, n);
            assert(back == before.insert(c.name, row[c.name]));
            assert forall|k: int|
                0 <= k < t.columns.len() && (k < n || t.columns[k].constant is Some) implies
                back.contains_key((#[trigger] t.columns[k]).name) && back[t.columns[k].name]
                == cell_of(row, t.columns[k]) by {
                if k < n - 1 {
                    assert(t.columns[k].name != t.columns[n - 1].name);
                } else if k > n - 1 {
                    assert(t.columns[n - 1].name != t.columns[k].name);
                }
            }
            assert forall|key: Seq<char>| #[trigger] back.contains_key(key) implies exists|k: int|
                0 <= k < t.columns.len() && (#[trigger] t.columns[k]).name == key by {
                if !before.contains_key(key) {
                    assert(t.columns[n - 1].name == key);
                }
            }
        }
    }
}

/// A parser reads from a built table of plain texts what was put into it: its
/// name, the names of the per-row columns in order, as many rows, and in each
/// row every column with its constant or its cell, and nothing else.
pub proof fn plain_table_comes_back(t: TableModel)
    requires
        table_plain(t),
    ensures
        ({
            let r = utf_table(table_bytes(t), 0);
            let u = r->Ok_0;
            &&& r is Ok
            &&& u.name == t.name
            &&& u.keys == per_row_names(t, t.columns.len())
            &&& u.rows.len() == t.rows.len()
            &&& forall|i: int, k: int|
                #![trigger u.rows[i], t.columns[k]]
                0 <= i < t.rows.len() && 0 <= k < t.columns.len()
                    ==> u.rows[i].contains_key(t.columns[k].name)
                    && u.rows[i][t.columns[k].name] == cell_of(t.rows[i], t.columns[k])
            &&& forall|i: int, key: Seq<char>|
                0 <= i < t.rows.len() && #[trigger] u.rows[i].contains_key(key) ==> exists|k: int|
                    0 <= k < t.columns.len() && (#[trigger] t.columns[k]).name == key
        }),
{
    let u = table_back(t);
    let n = t.columns.len();
    plain_table_sound(t);
    build_then_parse(t);
    plain_comes_back(t.name);
    names_back(t, n);
    assert forall|i: int, k: int|
        #![trigger u.rows[i], t.columns[k]]
        0 <= i < t.rows.len() && 0 <= k < n implies u.rows[i].contains_key(t.columns[k].name)
        && u.rows[i][t.columns[k].name] == cell_of(t.rows[i], t.columns[k]) by {
        row_comes_back(t, i, n);
    }
    assert forall|i: int, key: Seq<char>|
        0 <= i < t.rows.len() && #[trigger] u.rows[i].contains_key(key) implies exists|k: int|
        0 <= k < n && (#[trigger] t.columns[k]).name == key by {
        row_comes_back(t, i, n);
    }
}

} // verus!
