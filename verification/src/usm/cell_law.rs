//! Which bytes of a container's tables and chunks say what.

use vstd::prelude::*;
use vstd::utf8::{encode_utf8, is_ascii_chars_encode_utf8};
use crate::bytes::{
    be16, be32, be32_round_trip, be16_round_trip, i16_of, i32_of, i8_of, u16_be, u32_be,
};
use crate::reader::{slice_at, text_end};
use crate::usm::builder::{audio_payload, chunk_bytes, video_payload};
use crate::usm::mask::{
    audio_mask_bytes, audio_mask_undoes_itself, audio_masked, mask_bytes, tail_mask_bytes,
    video_mask_comes_off, video_unmasked,
};
use crate::usm::metadata::{hex_digit, number_of, summary, MetadataModel};
use crate::usm::table::{
    body_size, cell_value, field_at, row_upto, rows_upto, table_frame, table_head, text_from,
    FieldModel, TableHead, UtfModel,
};

verus! {

/// The number of two bytes, the high one first.
pub open spec fn two(d: Seq<u8>, i: int) -> int {
    256 * d[i] + d[i + 1]
}

/// The number of four bytes, the high one first.
pub open spec fn four(d: Seq<u8>, i: int) -> int {
    16_777_216 * d[i] + 65_536 * d[i + 1] + 256 * d[i + 2] + d[i + 3]
}

/// The signed number with so many values.
pub open spec fn signed(v: int, room: int) -> int {
    if 2 * v < room { v } else { v - room }
}

proof fn words_stand(d: Seq<u8>, i: int)
    requires
        0 <= i,
    ensures
        i + 2 <= d.len() ==> u16_be(d.subrange(i, i + 2)) == two(d, i),
        i + 4 <= d.len() ==> u32_be(d.subrange(i, i + 4)) == four(d, i),
{
    if i + 2 <= d.len() {
        let s = d.subrange(i, i + 2);
        assert(s[0] == d[i] && s[1] == d[i + 1]);
    }
    if i + 4 <= d.len() {
        let s = d.subrange(i, i + 4);
        assert(s[0] == d[i] && s[1] == d[i + 1] && s[2] == d[i + 2] && s[3] == d[i + 3]);
    }
}

proof fn whole_numbers(a: u16, b: u32, c: u8)
    ensures
        i8_of(c) == signed(c as int, 256),
        i16_of(a) == signed(a as int, 65_536),
        i32_of(b) == signed(b as int, 4_294_967_296),
{
}

/// The number of a cell by its type: whole numbers of one, two, four and eight
/// bytes, the high one first, the odd types signed, and the bits of a
/// single-precision number.
pub proof fn numbers_tell(d: Seq<u8>, pos: nat, strings: int, data: int)
    requires
        pos + 8 <= d.len(),
    ensures
        ({
            let p = pos as int;
            &&& cell_value(d, pos, 0, strings, data)->Ok_0 == UtfModel::Byte(d[p])
            &&& cell_value(d, pos, 1, strings, data)->Ok_0 == UtfModel::SByte(
                signed(d[p] as int, 256) as i8,
            )
            &&& cell_value(d, pos, 2, strings, data)->Ok_0 == UtfModel::UShort(two(d, p) as u16)
            &&& cell_value(d, pos, 3, strings, data)->Ok_0 == UtfModel::Short(
                signed(two(d, p), 65_536) as i16,
            )
            &&& cell_value(d, pos, 4, strings, data)->Ok_0 == UtfModel::UInt(four(d, p) as u32)
            &&& cell_value(d, pos, 5, strings, data)->Ok_0 == UtfModel::Int(
                signed(four(d, p), 4_294_967_296) as i32,
            )
            &&& cell_value(d, pos, 6, strings, data)->Ok_0 == UtfModel::ULong(
                (four(d, p) * 4_294_967_296 + four(d, p + 4)) as u64,
            )
            &&& cell_value(d, pos, 8, strings, data)->Ok_0 == UtfModel::Float(four(d, p) as u32)
            &&& cell_value(d, pos, 7, strings, data) is Err
            &&& cell_value(d, pos, 9, strings, data) is Err
            &&& cell_value(d, pos, 12, strings, data) is Err
        }),
{
    let p = pos as int;
    words_stand(d, p);
    words_stand(d, p + 4);
    let b = slice_at(d, pos, 8);
    assert(b.subrange(4, 8) =~= d.subrange(p + 4, p + 8));
    let s = d.subrange(p, p + 4);
    assert(b[0] == s[0] && b[1] == s[1] && b[2] == s[2] && b[3] == s[3]);
    assert(u32_be(b) == u32_be(s));
    assert(slice_at(d, pos, 1)[0] == d[p]);
    assert(slice_at(d, pos, 2) == d.subrange(p, p + 2));
    assert(slice_at(d, pos, 4) == s);
    whole_numbers(u16_be(d.subrange(p, p + 2)), u32_be(s), d[p]);
}

/// A text cell names the place of its text up to a zero byte, a data cell the
/// place and the length of its data. Places count from where texts and data
/// start, which the head counts from the ninth byte of the table: 24 bytes
/// before the bytes behind the head.
pub proof fn places_tell(d: Seq<u8>, pos: nat, strings: int, data: int)
    requires
        pos + 8 <= d.len(),
        24 <= strings + four(d, pos as int) <= 0x7FFF_FFFF_FFFF_FFFF,
        24 <= data + four(d, pos as int) <= 0x7FFF_FFFF_FFFF_FFFF,
    ensures
        ({
            let text = cell_value(d, pos, 10, strings, data);
            let blob = cell_value(d, pos, 11, strings, data);
            let from = strings + four(d, pos as int) - 24;
            let at = data + four(d, pos as int) - 24;
            let size = four(d, (pos + 4) as int);
            &&& match text_end(d, from as nat) {
                Some(z) => text is Ok && text->Ok_0 == UtfModel::String(
                    d.subrange(from, z as int),
                ),
                None => text is Err,
            }
            &&& at + size <= d.len() ==> blob is Ok && blob->Ok_0 == UtfModel::Data(
                d.subrange(at, at + size),
            )
            &&& at + size > d.len() && size > 0 ==> blob is Err
        }),
{
    let p = pos as int;
    words_stand(d, p);
    words_stand(d, p + 4);
    let b = slice_at(d, pos, 8);
    let s = d.subrange(p, p + 4);
    assert(b[0] == s[0] && b[1] == s[1] && b[2] == s[2] && b[3] == s[3]);
    assert(u32_be(b) == u32_be(s));
    assert(b.subrange(4, 8) =~= d.subrange(p + 4, p + 8));
    assert(slice_at(d, pos, 4) == s);
    let at = data + four(d, p) - 24;
    let size = four(d, p + 4);
    if size == 0 && at <= d.len() {
        assert(d.subrange(at, at + size) =~= Seq::empty());
    }
}

/// A table starts with the letters `@UTF`. Its head says how long it is, where
/// rows, texts, data and its name lie, counted from the ninth byte, and how many
/// columns and rows there are.
pub proof fn table_head_tells(d: Seq<u8>, pos: nat)
    requires
        table_frame(d, pos) is Ok,
        pos + 32 <= d.len(),
        four(d, (pos + 4) as int) >= 24,
    ensures
        ({
            let (h, body) = table_frame(d, pos)->Ok_0;
            let p = pos as int;
            &&& d[p] == 64 && d[p + 1] == 85 && d[p + 2] == 84 && d[p + 3] == 70
            &&& h.row_offset == two(d, p + 10)
            &&& h.string_table_offset == four(d, p + 12)
            &&& h.data_offset == four(d, p + 16)
            &&& h.table_name_offset == four(d, p + 20)
            &&& h.number_of_fields == two(d, p + 24)
            &&& h.number_of_rows == four(d, p + 28)
            &&& body.len() == four(d, p + 4) - 24
            &&& forall|k: int| 0 <= k < body.len() ==> #[trigger] body[k] == d[p + 32 + k]
        }),
{
    let p = pos as int;
    let b = slice_at(d, pos, 32);
    reveal_strlit("@UTF");
    is_ascii_chars_encode_utf8("@UTF"@);
    let w = encode_utf8("@UTF"@);
    let s = slice_at(d, pos, 4);
    assert(s[0] == w[0] && s[1] == w[1] && s[2] == w[2] && s[3] == w[3]);
    assert(s[0] == d[p] && s[1] == d[p + 1] && s[2] == d[p + 2] && s[3] == d[p + 3]);
    assert forall|k: int| 0 <= k < 32 implies #[trigger] b[k] == d[p + k] by {}
    words_stand(b, 4);
    words_stand(b, 10);
    words_stand(b, 12);
    words_stand(b, 16);
    words_stand(b, 20);
    words_stand(b, 24);
    words_stand(b, 28);
    let h = table_head(b);
    assert(h.table_size == four(d, p + 4));
    assert(body_size(h) == four(d, p + 4) - 24);
}

/// A column: a byte of flags and type, the place of its name, and its value
/// where all rows share it.
pub proof fn column_tells(body: Seq<u8>, p: nat, h: TableHead)
    requires
        field_at(body, p, h) is Ok,
    ensures
        ({
            let (f, next) = field_at(body, p, h)->Ok_0;
            let i = p as int;
            let shared = body[i] / 16 == 3 || body[i] / 16 == 7;
            let name = text_from(body, h.string_table_offset + four(body, i + 1));
            let value = cell_value(
                body,
                p + 5,
                body[i] % 16,
                h.string_table_offset as int,
                h.data_offset as int,
            );
            &&& f.column_type == body[i] % 16
            &&& name is Ok && f.name == name->Ok_0
            &&& shared ==> value is Ok && f.constant == Some(value->Ok_0) && next > p + 5
            &&& !shared ==> f.constant is None && next == p + 5
        }),
{
    let i = p as int;
    words_stand(body, i + 1);
    assert(slice_at(body, p + 1, 4) == body.subrange(i + 1, i + 5));
}

/// Rows stand one behind the other from where the head says; each takes the
/// cells of the columns that are not shared, in order.
pub proof fn rows_follow(body: Seq<u8>, fields: Seq<FieldModel>, n: nat, h: TableHead)
    requires
        rows_upto(body, fields, n + 1, h) is Ok,
        24 <= h.row_offset,
    ensures
        ({
            let first = rows_upto(body, fields, 0, h)->Ok_0;
            let (rows, p) = rows_upto(body, fields, n, h)->Ok_0;
            let (more, q) = rows_upto(body, fields, n + 1, h)->Ok_0;
            &&& first.1 == h.row_offset - 24
            &&& rows_upto(body, fields, n, h) is Ok
            &&& row_upto(body, fields, fields.len(), p, h) is Ok
            &&& more == rows.push(row_upto(body, fields, fields.len(), p, h)->Ok_0.0)
            &&& q == row_upto(body, fields, fields.len(), p, h)->Ok_0.1
        }),
{
}

/// A row gives each column its shared value, or the next cell of the row.
pub proof fn cells_follow(body: Seq<u8>, fields: Seq<FieldModel>, k: nat, p: nat, h: TableHead)
    requires
        k < fields.len(),
        row_upto(body, fields, k + 1, p, h) is Ok,
    ensures
        ({
            let f = fields[k as int];
            let (row, at) = row_upto(body, fields, k, p, h)->Ok_0;
            let (more, next) = row_upto(body, fields, k + 1, p, h)->Ok_0;
            let cell = cell_value(
                body,
                at,
                f.column_type,
                h.string_table_offset as int,
                h.data_offset as int,
            );
            &&& row_upto(body, fields, 0, p, h)->Ok_0.1 == p
            &&& row_upto(body, fields, k, p, h) is Ok
            &&& f.constant is Some ==> more == row.insert(f.name, f.constant->Some_0) && next == at
            &&& f.constant is None ==> cell is Ok && more == row.insert(f.name, cell->Ok_0)
            &&& f.constant is None && f.column_type <= 1 ==> next == at + 1
            &&& f.constant is None && 2 <= f.column_type <= 3 ==> next == at + 2
            &&& f.constant is None && (4 <= f.column_type <= 5 || f.column_type == 8
                || f.column_type == 10) ==> next == at + 4
            &&& f.constant is None && (f.column_type == 6 || f.column_type == 11) ==> next == at + 8
        }),
{
}

/// The whole number that metadata stands for: its low 32 bits as a signed
/// number.
pub proof fn whole_metadata_tells(a: u8, b: i8, c: u16, d: i16, e: u32, f: i32, g: u64)
    ensures
        number_of(MetadataModel::Byte(a)) == Some(a as i32),
        number_of(MetadataModel::SByte(b)) == Some(b as i32),
        number_of(MetadataModel::UShort(c)) == Some(c as i32),
        number_of(MetadataModel::Short(d)) == Some(d as i32),
        number_of(MetadataModel::UInt(e)) == Some(signed(e as int, 4_294_967_296) as i32),
        number_of(MetadataModel::Int(f)) == Some(f),
        number_of(MetadataModel::ULong(g)) == Some(
            signed(g as int % 4_294_967_296, 4_294_967_296) as i32,
        ),
{
}

/// Binary data is summarized by its length and the digits of its first 32
/// bytes, two for each, the high one first.
pub proof fn summaries_tell(b: Seq<u8>, k: int)
    requires
        0 <= k < b.len(),
        k < 32,
    ensures
        ({
            let s = summary(b);
            let shown = s.preview_hex->Some_0;
            &&& s.size == b.len()
            &&& s.preview_hex is Some
            &&& shown.len() == if b.len() <= 32 { 2 * b.len() } else { 64 }
            &&& s.truncated == if b.len() <= 32 { None } else { Some(true) }
            &&& shown[2 * k] == hex_digit(b[k] as int / 16)
            &&& shown[2 * k + 1] == hex_digit(b[k] as int % 16)
        }),
{
    let part = if b.len() <= 32 { b } else { b.subrange(0, 32) };
    assert((2 * k) / 2 == k && (2 * k + 1) / 2 == k);
    assert(part[k] == b[k]);
}

/// Digits are the figures up to nine and the small letters from `a` on.
pub proof fn digits_tell(v: int)
    requires
        0 <= v < 16,
    ensures
        v < 10 ==> hex_digit(v) as int == '0' as int + v,
        v >= 10 ==> hex_digit(v) as int == 'a' as int + v - 10,
{
}

/// A chunk of a built movie: its letters, the length of the rest, the place of
/// its piece in the stream and the number of the stream, then the piece.
pub proof fn built_chunk_tells(letters: Seq<u8>, payload: Seq<u8>, offset: u32, stream: u32)
    requires
        letters.len() == 4,
        payload.len() + 24 <= u32::MAX,
    ensures
        ({
            let c = chunk_bytes(letters, payload, offset, stream);
            &&& c.len() == 28 + payload.len()
            &&& c.subrange(0, 4) == letters
            &&& four(c, 4) == payload.len() + 24
            &&& two(c, 8) == 1
            &&& two(c, 10) == 24
            &&& four(c, 12) == offset
            &&& four(c, 16) == stream
            &&& four(c, 20) == 0 && four(c, 24) == 0
            &&& c.subrange(28, c.len() as int) == payload
        }),
{
    let c = chunk_bytes(letters, payload, offset, stream);
    let size = (payload.len() + 24) as u32;
    assert(c.subrange(0, 4) =~= letters);
    assert(c.subrange(4, 8) =~= be32(size));
    assert(c.subrange(8, 10) =~= be16(1));
    assert(c.subrange(10, 12) =~= be16(24));
    assert(c.subrange(12, 16) =~= be32(offset));
    assert(c.subrange(16, 20) =~= be32(stream));
    assert(c.subrange(28, c.len() as int) =~= payload);
    words_stand(c, 4);
    words_stand(c, 8);
    words_stand(c, 10);
    words_stand(c, 12);
    words_stand(c, 16);
    be32_round_trip(size);
    be16_round_trip(1);
    be16_round_trip(24);
    be32_round_trip(offset);
    be32_round_trip(stream);
}

/// What a built movie holds of a stream under a key is the stream once the
/// masks of the key are taken off.
pub proof fn built_payloads_open(data: Seq<u8>, key: u64)
    ensures
        video_payload(data, None) == data,
        audio_payload(data, None) == data,
        video_unmasked(video_payload(data, Some(key)), mask_bytes(key), tail_mask_bytes(key))
            == data,
        audio_masked(audio_payload(data, Some(key)), audio_mask_bytes(key)) == data,
{
    video_mask_comes_off(data, mask_bytes(key), tail_mask_bytes(key));
    audio_mask_undoes_itself(data, audio_mask_bytes(key));
}

} // verus!
