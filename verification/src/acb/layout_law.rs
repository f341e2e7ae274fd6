//! Which bytes of tables and archives say what.

use vstd::prelude::*;
use crate::acb::afs::{archive_of, header_len, place_of, sized_at, ArchiveModel};
use crate::acb::builder::{header_bytes, layout_of, TableModel};
use crate::acb::consts::extension_of;
use crate::acb::sheet_model::{encoding_of, fmt_at, track_info};
use crate::acb::utf::{flag_refused, stored_per_row, utf_header, value_at, wrap32, ValueModel};
use crate::bytes::{be16, be32, i16_of, i32_of, i8_of, u16_be, u16_le, u32_be, u32_le};
use crate::reader::{slice_at, string_at};

verus! {

/// The number of two bytes, the high one first.
pub open spec fn two(d: Seq<u8>, i: int) -> int {
    256 * d[i] + d[i + 1]
}

/// The number of four bytes, the high one first.
pub open spec fn four(d: Seq<u8>, i: int) -> int {
    16_777_216 * d[i] + 65_536 * d[i + 1] + 256 * d[i + 2] + d[i + 3]
}

/// The signed number with so many values.
pub open spec fn signed(v: int, room: int) -> int {
    if 2 * v < room { v } else { v - room }
}

proof fn words_stand(d: Seq<u8>, i: int)
    requires
        0 <= i,
    ensures
        i + 2 <= d.len() ==> u16_be(d.subrange(i, i + 2)) == two(d, i),
        i + 4 <= d.len() ==> u32_be(d.subrange(i, i + 4)) == four(d, i),
        i + 2 <= d.len() ==> u16_le(d.subrange(i, i + 2)) == d[i] + 256 * d[i + 1],
        i + 4 <= d.len() ==> u32_le(d.subrange(i, i + 4)) == d[i] + 256 * d[i + 1] + 65_536 * d[i
            + 2] + 16_777_216 * d[i + 3],
{
    if i + 2 <= d.len() {
        let s = d.subrange(i, i + 2);
        assert(s[0] == d[i] && s[1] == d[i + 1]);
    }
    if i + 4 <= d.len() {
        let s = d.subrange(i, i + 4);
        assert(s[0] == d[i] && s[1] == d[i + 1] && s[2] == d[i + 2] && s[3] == d[i + 3]);
    }
}

/// The header of a table: its size, its version, where rows, strings, data and
/// its name lie, counted from the ninth byte, and how many columns, bytes of a
/// row and rows there are.
pub proof fn table_header_tells(b: Seq<u8>)
    requires
        b.len() == 32,
    ensures
        ({
            let h = utf_header(b);
            &&& h.table_size == four(b, 4)
            &&& h.version == two(b, 8)
            &&& h.row_offset == two(b, 10)
            &&& h.string_table_offset == four(b, 12)
            &&& h.data_offset == four(b, 16)
            &&& h.table_name_offset == four(b, 20)
            &&& h.number_of_fields == two(b, 24)
            &&& h.row_size == two(b, 26)
            &&& h.number_of_rows == four(b, 28)
            &&& h.rows_at() == two(b, 10) + 8
            &&& four(b, 12) + 8 <= u32::MAX ==> h.strings_at() == four(b, 12) + 8
            &&& four(b, 16) + 8 <= u32::MAX ==> h.data_at() == four(b, 16) + 8
        }),
{
    words_stand(b, 4);
    words_stand(b, 8);
    words_stand(b, 10);
    words_stand(b, 12);
    words_stand(b, 16);
    words_stand(b, 20);
    words_stand(b, 24);
    words_stand(b, 26);
    words_stand(b, 28);
}

/// A built table starts with the letters `@UTF` and says where its parts lie.
pub proof fn built_header_tells(t: TableModel)
    requires
        t.columns.len() <= 0xFFFF,
        t.rows.len() <= u32::MAX,
        8 <= layout_of(t).rows_at <= 0xFFFF + 8,
        8 <= layout_of(t).strings_at <= u32::MAX,
        8 <= layout_of(t).data_at <= u32::MAX,
        8 <= layout_of(t).size <= u32::MAX,
        layout_of(t).row_width <= 0xFFFF,
    ensures
        ({
            let b = header_bytes(t);
            let l = layout_of(t);
            &&& b.len() == 32
            &&& b[0] == 64 && b[1] == 85 && b[2] == 84 && b[3] == 70
            &&& four(b, 4) == l.size - 8
            &&& two(b, 8) == t.encoding
            &&& two(b, 10) == l.rows_at - 8
            &&& four(b, 12) == l.strings_at - 8
            &&& four(b, 16) == l.data_at - 8
            &&& four(b, 20) == 0
            &&& two(b, 24) == t.columns.len()
            &&& two(b, 26) == l.row_width
            &&& four(b, 28) == t.rows.len()
        }),
{
    let b = header_bytes(t);
    let l = layout_of(t);
    assert(b.len() == 32);
    assert(b.subrange(4, 8) =~= be32((l.size - 8) as u32));
    assert(b.subrange(8, 10) =~= be16(t.encoding));
    assert(b.subrange(10, 12) =~= be16((l.rows_at - 8) as u16));
    assert(b.subrange(12, 16) =~= be32((l.strings_at - 8) as u32));
    assert(b.subrange(16, 20) =~= be32((l.data_at - 8) as u32));
    assert(b.subrange(20, 24) =~= be32(0));
    assert(b.subrange(24, 26) =~= be16(t.columns.len() as u16));
    assert(b.subrange(26, 28) =~= be16(l.row_width as u16));
    assert(b.subrange(28, 32) =~= be32(t.rows.len() as u32));
    words_stand(b, 4);
    words_stand(b, 8);
    words_stand(b, 10);
    words_stand(b, 12);
    words_stand(b, 16);
    words_stand(b, 20);
    words_stand(b, 24);
    words_stand(b, 26);
    words_stand(b, 28);
    crate::bytes::be32_round_trip((l.size - 8) as u32);
    crate::bytes::be16_round_trip(t.encoding);
    crate::bytes::be16_round_trip((l.rows_at - 8) as u16);
    crate::bytes::be32_round_trip((l.strings_at - 8) as u32);
    crate::bytes::be32_round_trip((l.data_at - 8) as u32);
    crate::bytes::be32_round_trip(0);
    crate::bytes::be16_round_trip(t.columns.len() as u16);
    crate::bytes::be16_round_trip(l.row_width as u16);
    crate::bytes::be32_round_trip(t.rows.len() as u32);
}

/// The number of a cell by its type: whole numbers of one, two, four and eight
/// bytes, the high one first, the odd types signed, and the bits of a
/// single-precision number.
pub proof fn numbers_tell(d: Seq<u8>, pos: nat, strings: u32, blobs: u32)
    requires
        pos + 8 <= d.len(),
    ensures
        ({
            let p = pos as int;
            &&& value_at(d, pos, 0, strings, blobs)->Ok_0 == ValueModel::U8(d[p])
            &&& value_at(d, pos, 1, strings, blobs)->Ok_0 == ValueModel::I8(
                signed(d[p] as int, 256) as i8,
            )
            &&& value_at(d, pos, 2, strings, blobs)->Ok_0 == ValueModel::U16(two(d, p) as u16)
            &&& value_at(d, pos, 3, strings, blobs)->Ok_0 == ValueModel::I16(
                signed(two(d, p), 65_536) as i16,
            )
            &&& value_at(d, pos, 4, strings, blobs)->Ok_0 == ValueModel::U32(four(d, p) as u32)
            &&& value_at(d, pos, 5, strings, blobs)->Ok_0 == ValueModel::I32(
                signed(four(d, p), 4_294_967_296) as i32,
            )
            &&& value_at(d, pos, 6, strings, blobs)->Ok_0 == ValueModel::U64(
                (four(d, p) * 4_294_967_296 + four(d, p + 4)) as u64,
            )
            &&& value_at(d, pos, 8, strings, blobs)->Ok_0 == ValueModel::F32(four(d, p) as u32)
            &&& value_at(d, pos, 7, strings, blobs) is Err
            &&& value_at(d, pos, 9, strings, blobs) is Err
            &&& value_at(d, pos, 12, strings, blobs) is Err
        }),
{
    let p = pos as int;
    words_stand(d, p);
    words_stand(d, p + 4);
    let b = slice_at(d, pos, 8);
    assert(b.subrange(4, 8) =~= d.subrange(p + 4, p + 8));
    let s = d.subrange(p, p + 4);
    assert(b[0] == s[0] && b[1] == s[1] && b[2] == s[2] && b[3] == s[3]);
    assert(u32_be(b) == u32_be(s));
    assert(slice_at(d, pos, 1)[0] == d[p]);
    assert(slice_at(d, pos, 2) == d.subrange(p, p + 2));
    assert(slice_at(d, pos, 4) == s);
    whole_numbers(u16_be(d.subrange(p, p + 2)), u32_be(s), d[p]);
}

proof fn whole_numbers(a: u16, b: u32, c: u8)
    ensures
        i8_of(c) == signed(c as int, 256),
        i16_of(a) == signed(a as int, 65_536),
        i32_of(b) == signed(b as int, 4_294_967_296),
{
}

/// A text cell names the place of its text, a data cell the place and the
/// length of its data, counted from where texts and data start.
pub proof fn places_tell(d: Seq<u8>, pos: nat, strings: u32, blobs: u32)
    requires
        pos + 8 <= d.len(),
        strings + four(d, pos as int) <= u32::MAX,
        blobs + four(d, pos as int) <= u32::MAX,
    ensures
        ({
            let text = value_at(d, pos, 10, strings, blobs);
            let data = value_at(d, pos, 11, strings, blobs);
            let at = blobs + four(d, pos as int);
            let size = four(d, (pos + 4) as int);
            &&& match string_at(d, (strings + four(d, pos as int)) as nat) {
                Some(s) => text is Ok && text->Ok_0 == ValueModel::String(s),
                None => text is Err,
            }
            &&& at + size <= d.len() ==> data is Ok && data->Ok_0 == ValueModel::Data(
                d.subrange(at, at + size),
            )
            &&& at + size > d.len() && size > 0 ==> data is Err
        }),
{
    let p = pos as int;
    words_stand(d, p);
    words_stand(d, p + 4);
    let b = slice_at(d, pos, 8);
    assert(b.subrange(0, 4) =~= d.subrange(p, p + 4));
    assert(b.subrange(4, 8) =~= d.subrange(p + 4, p + 8));
    assert(slice_at(d, pos, 4) == d.subrange(p, p + 4));
    let at = blobs + four(d, p);
    let size = four(d, p + 4);
    assert(wrap32(at) == at);
    assert(wrap32(strings + four(d, p)) == strings + four(d, p));
    if size == 0 && at <= d.len() {
        assert(d.subrange(at, at + size) =~= Seq::empty());
    }
}

/// A column's flags: it must have a name, and may be constant or stored in each
/// row. A constant column is not stored in rows.
pub proof fn flags_tell(flag: u8)
    ensures
        flag_refused(0),
        flag_refused(0x20),
        flag_refused(0x40),
        flag_refused(0x80),
        flag_refused(0x90),
        !flag_refused(0x10),
        !flag_refused(0x30),
        !flag_refused(0x50),
        stored_per_row(0x50),
        !stored_per_row(0x30),
        !stored_per_row(0x70),
        !stored_per_row(0x10),
{
    assert(0u8 & 0x10u8 == 0 && 0x20u8 & 0x10u8 == 0 && 0x40u8 & 0x10u8 == 0 && 0x80u8 & 0x10u8 == 0
        && 0x90u8 & 0x80u8 != 0 && 0x10u8 & 0x10u8 != 0 && 0x10u8 & 0x80u8 == 0 && 0x30u8 & 0x10u8
        != 0 && 0x30u8 & 0x80u8 == 0 && 0x50u8 & 0x10u8 != 0 && 0x50u8 & 0x80u8 == 0 && 0x50u8
        & 0x40u8 != 0 && 0x50u8 & 0x20u8 == 0 && 0x30u8 & 0x40u8 == 0 && 0x70u8 & 0x20u8 != 0
        && 0x10u8 & 0x40u8 == 0) by (bit_vector);
}

/// A number of two or four bytes, the low one first.
pub open spec fn low_first(d: Seq<u8>, at: int, size: u8) -> int {
    if size == 2 {
        d[at] + 256 * d[at + 1]
    } else {
        d[at] + 256 * d[at + 1] + 65_536 * d[at + 2] + 16_777_216 * d[at + 3]
    }
}

proof fn sized_stands(d: Seq<u8>, at: nat, size: u8)
    requires
        size == 2 || size == 4,
        at + size <= d.len(),
    ensures
        sized_at(d, at, size as nat) == low_first(d, at as int, size),
{
    words_stand(d, at as int);
}

/// An archive: the letters `AFS2`, the widths of places and ids, the number of
/// files, the alignment and the subkey, then the ids and the places, the low
/// byte first.
pub proof fn archive_header_tells(d: Seq<u8>, i: int)
    requires
        archive_of(d) is Ok,
        0 <= i < archive_of(d)->Ok_0.ids.len(),
    ensures
        ({
            let a = archive_of(d)->Ok_0;
            let count = low_first(d, 8, 4);
            &&& d[0] == 65 && d[1] == 70 && d[2] == 83 && d[3] == 50
            &&& d[5] == 2 || d[5] == 4
            &&& d[6] == 2 || d[6] == 4
            &&& a.data == d
            &&& a.ids.len() == count
            &&& a.offsets.len() == count + 1
            &&& a.alignment == low_first(d, 12, 2)
            &&& a.subkey == low_first(d, 14, 2)
            &&& a.ids[i] == low_first(d, 16 + d[6] * i, d[6])
            &&& a.offsets[i] == low_first(d, 16 + d[6] * count + d[5] * i, d[5])
            &&& a.offsets[i + 1] == low_first(d, 16 + d[6] * count + d[5] * (i + 1), d[5])
        }),
{
    words_stand(d, 0);
    words_stand(d, 8);
    words_stand(d, 12);
    words_stand(d, 14);
    let count = low_first(d, 8, 4);
    let ids = d[6] as int;
    let positions = d[5] as int;
    let id = 16 + ids * i;
    let place = 16 + ids * count + positions * i;
    let next = 16 + ids * count + positions * (i + 1);
    assert(ids * i + ids <= ids * count && positions * i + positions <= positions * (count + 1)
        && positions * (i + 1) + positions <= positions * (count + 1) && ids * i >= 0 && positions
        * i >= 0 && positions * (i + 1) >= 0 && ids * count >= 0) by (nonlinear_arith)
        requires
            0 <= i,
            i + 1 <= count,
            ids >= 0,
            positions >= 0,
    ;
    assert(header_len(count as nat, ids as nat, positions as nat) <= d.len());
    sized_stands(d, id as nat, d[6]);
    sized_stands(d, place as nat, d[5]);
    sized_stands(d, next as nat, d[5]);
}

/// A file of an archive is what lies between its aligned place and the place of
/// the next file.
pub proof fn file_lies_between(a: ArchiveModel, i: int)
    requires
        0 <= i < a.ids.len(),
        a.offsets.len() == a.ids.len() + 1,
        a.ids[i] <= i32::MAX,
        forall|j: int| 0 <= j < i ==> #[trigger] a.ids[j] != a.ids[i],
        a.alignment > 0,
        a.file(a.ids[i] as i32) is Ok,
    ensures
        ({
            let data = a.file(a.ids[i] as i32)->Ok_0;
            let start = a.offsets[i + 1] - data.len();
            &&& data == a.data.subrange(start, a.offsets[i + 1] as int)
            &&& start % (a.alignment as int) == 0
            &&& a.offsets[i] <= start < a.offsets[i] + a.alignment
        }),
{
    place_found(a.ids, i, 0);
    let o = a.offsets[i] as int;
    let n = a.alignment as int;
    let q = (o + n - 1) / n;
    assert(q * n >= o && q * n < o + n && (q * n) % n == 0) by (nonlinear_arith)
        requires
            q == (o + n - 1) / n,
            n > 0,
            o >= 0,
    ;
}

proof fn place_found(ids: Seq<u32>, i: int, from: nat)
    requires
        from <= i < ids.len(),
        ids[i] <= i32::MAX,
        forall|j: int| 0 <= j < i ==> #[trigger] ids[j] != ids[i],
    ensures
        place_of(ids, ids[i] as i32, from) == Some(i as nat),
    decreases i - from,
{
    if from < i {
        assert(ids[from as int] != ids[i]);
        place_found(ids, i, from + 1);
    }
}

/// The extensions of waveforms, by the number of their encoding.
pub proof fn extensions_tell(enc_type: i32)
    ensures
        enc_type == 0 ==> extension_of(enc_type) == ".adx"@,
        enc_type == 2 || enc_type == 6 ==> extension_of(enc_type) == ".hca"@,
        enc_type == 7 ==> extension_of(enc_type) == ".vag"@,
        enc_type == 8 ==> extension_of(enc_type) == ".at3"@,
        enc_type == 9 ==> extension_of(enc_type) == ".bcwav"@,
        enc_type == 11 ==> extension_of(enc_type) == ".at9"@,
        enc_type == 13 ==> extension_of(enc_type) == ".dsp"@,
        enc_type < 0 || enc_type == 1 || 3 <= enc_type <= 5 || enc_type == 10 || enc_type == 12
            || enc_type > 13 ==> extension_of(enc_type) == ""@,
{
}

/// A waveform is ADX where it starts with the bytes 128 and 0, or with three
/// zeros and 128, and else HCA.
pub proof fn first_bytes_tell(d: Seq<u8>)
    ensures
        d.len() < 4 ==> encoding_of(d) == 2,
        d.len() >= 4 && d[0] == 128 && d[1] == 0 ==> encoding_of(d) == 0,
        d.len() >= 4 && d[0] == 0 && d[1] == 0 && d[2] == 0 && d[3] == 128 ==> encoding_of(d) == 0,
        d.len() >= 4 && d[0] != 128 && d[0] != 0 ==> encoding_of(d) == 2,
        d.len() >= 4 && d[1] != 0 ==> encoding_of(d) == 2,
{
}

/// What a sheet says of a waveform with a format chunk: its channels, its rate,
/// 1024 samples for each block, and the milliseconds that they last.
pub proof fn format_tells(d: Seq<u8>, samples: u32, length: u32, p: nat)
    requires
        fmt_at(d, 0) == Some(p),
        p + 12 <= d.len(),
    ensures
        ({
            let i = p as int;
            let rate = 65_536 * d[i + 5] + 256 * d[i + 6] + d[i + 7];
            let blocks = four(d, i + 8);
            let info = track_info(d, samples, length);
            let ms = blocks * 1024 * 1000 / rate;
            &&& rate > 0 && 0 < blocks < 4_194_304 && 0 < ms < length ==> {
                &&& d[i + 4] > 0 ==> info.channels == d[i + 4]
                &&& d[i + 4] == 0 ==> info.channels == 1
                &&& rate <= 65_535 ==> info.sampling_rate == rate
                &&& info.num_samples == blocks * 1024
                &&& info.length_ms == ms
            }
            &&& rate == 0 || blocks == 0 ==> info.channels == 2 && info.sampling_rate == 44_100
                && info.num_samples == samples && info.length_ms == length
        }),
{
    let i = p as int;
    words_stand(d, i + 8);
    let rate = 65_536 * d[i + 5] + 256 * d[i + 6] + d[i + 7];
    let blocks = four(d, i + 8);
    if rate > 0 && 0 < blocks < 4_194_304 {
        let ms = blocks * 1024 * 1000 / rate;
        if 0 < ms < length {
            assert(wrap32(ms) == ms);
        }
    }
}

} // verus!
