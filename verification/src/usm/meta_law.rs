//! What the metadata of a container tells.

use vstd::prelude::*;
use vstd::utf8::{encode_utf8, encode_utf8_decode_utf8, encode_utf8_valid_utf8};
use crate::usm::cell_law::signed;
use crate::usm::header::UsmPartsModel;
use crate::usm::metadata::{
    decoded_text, frame_rate, metadata_sections, normalized, normalized_table, stray, summary,
    MetadataModel, SectionDataModel, SectionModel,
};
use crate::usm::table::{RowModel, TableModel, UtfModel};

verus! {

/// Whether a section holds a table.
pub open spec fn table_told(
    s: SectionModel,
    kind: Seq<char>,
    signature: Seq<char>,
    offset: int,
    size: u32,
) -> bool {
    &&& s.kind == kind
    &&& s.signature == signature
    &&& s.offset == offset
    &&& s.block_size == Some(size)
    &&& s.data is Some && s.data->Some_0 is Table
}

/// Whether a section is a marker.
pub open spec fn marker_told(
    s: SectionModel,
    kind: Seq<char>,
    signature: Seq<char>,
    offset: int,
    size: u32,
    text: Seq<char>,
) -> bool {
    &&& s.kind == kind
    &&& s.signature == signature
    &&& s.offset == offset
    &&& s.block_size == Some(size)
    &&& s.data == Some(SectionDataModel::Marker(text))
}

/// The sections of the metadata come in the order of the container: the
/// directory, the headers of the video and of the audio, the ends of both, the
/// table about the video and its end. Without audio its two sections are
/// missing. Each tells its chunk's letters, place and size.
pub proof fn sections_tell(p: UsmPartsModel)
    ensures
        ({
            let s = metadata_sections(p);
            let h = p.header;
            let a = if h.audio is Some { 1int } else { 0 };
            let b = if h.audio_end is Some { a + 1 } else { a };
            &&& s.len() == 5 + b
            &&& table_told(s[0], "crid"@, "CRID"@, 0, p.block_size)
            &&& table_told(s[1], "video_header"@, "@SFV"@, h.video.offset, h.video.block_size)
            &&& h.audio is Some ==> table_told(
                s[2],
                "audio_header"@,
                "@SFA"@,
                h.audio->Some_0.offset,
                h.audio->Some_0.block_size,
            )
            &&& marker_told(
                s[2 + a],
                "video_header_end"@,
                "@SFV"@,
                h.video_end.offset as int,
                h.video_end.block_size,
                "#HEADER END"@,
            )
            &&& h.audio_end is Some ==> marker_told(
                s[3 + a],
                "audio_header_end"@,
                "@SFA"@,
                h.audio_end->Some_0.offset as int,
                h.audio_end->Some_0.block_size,
                "#HEADER END"@,
            )
            &&& table_told(
                s[3 + b],
                "video_metadata"@,
                "@SFV"@,
                p.metadata.table.offset,
                p.metadata.table.block_size,
            )
            &&& marker_told(
                s[4 + b],
                "video_metadata_end"@,
                "@SFV"@,
                p.metadata.end.offset as int,
                p.metadata.end.block_size,
                "#METADATA END"@,
            )
            &&& s[0].data->Some_0->Table_0 == normalized_table(p.directory)
            &&& s[1].data->Some_0->Table_0 == normalized_table(h.video.table)
            &&& h.audio is Some ==> s[2].data->Some_0->Table_0 == normalized_table(
                h.audio->Some_0.table,
            )
            &&& s[3 + b].data->Some_0->Table_0 == normalized_table(p.metadata.table.table)
        }),
{
}

/// A table of the metadata has the name of its table, and a row for each row,
/// with the same columns.
pub proof fn tables_keep_rows(t: TableModel, i: int, key: Seq<char>)
    requires
        0 <= i < t.rows.len(),
    ensures
        ({
            let n = normalized_table(t);
            &&& n.table_name == t.name
            &&& n.row_count == t.rows.len()
            &&& n.rows.len() == t.rows.len()
            &&& n.rows[i].contains_key(key) == t.rows[i].contains_key(key)
            &&& t.rows[i].contains_key(key) ==> n.rows[i][key] == normalized(t.rows[i][key])
        }),
{
}

/// Numbers stay what they are; strings and data are texts where they can be
/// read as such, and else summaries.
pub proof fn values_keep_kinds(
    a: u8,
    b: i8,
    c: u16,
    d: i16,
    e: u32,
    f: i32,
    g: u64,
    x: u32,
    bytes: Seq<u8>,
)
    ensures
        normalized(UtfModel::Byte(a)) == MetadataModel::Byte(a),
        normalized(UtfModel::SByte(b)) == MetadataModel::SByte(b),
        normalized(UtfModel::UShort(c)) == MetadataModel::UShort(c),
        normalized(UtfModel::Short(d)) == MetadataModel::Short(d),
        normalized(UtfModel::UInt(e)) == MetadataModel::UInt(e),
        normalized(UtfModel::Int(f)) == MetadataModel::Int(f),
        normalized(UtfModel::ULong(g)) == MetadataModel::ULong(g),
        normalized(UtfModel::Float(x)) == MetadataModel::Float(x),
        normalized(UtfModel::String(bytes)) == normalized(UtfModel::Data(bytes)),
        decoded_text(bytes) is Some ==> normalized(UtfModel::Data(bytes)) == MetadataModel::String(
            decoded_text(bytes)->Some_0,
        ),
        decoded_text(bytes) is None ==> normalized(UtfModel::Data(bytes)) == MetadataModel::Binary(
            summary(bytes),
        ),
{
}

/// The characters that no text holds: control characters that are not white
/// space, and the mark of a character that could not be read.
pub proof fn stray_characters(c: char)
    ensures
        !stray(c) <==> ({
            let v = c as int;
            ||| 9 <= v <= 13
            ||| 32 <= v <= 126
            ||| v == 133
            ||| 160 <= v && v != 65_533
        }),
{
}

/// A text without stray characters is read back from its bytes.
pub proof fn texts_come_back(s: Seq<char>)
    requires
        forall|i: int| 0 <= i < s.len() ==> !stray(#[trigger] s[i]),
    ensures
        decoded_text(encode_utf8(s)) == Some(s),
        normalized(UtfModel::String(encode_utf8(s))) == MetadataModel::String(s),
{
    encode_utf8_decode_utf8(s);
    encode_utf8_valid_utf8(s);
    if encode_utf8(s).len() == 0 {
        assert(s =~= Seq::empty()) by {
            if s.len() > 0 {
                vstd::utf8::encode_utf8_first_scalar(s);
            }
        }
    }
}

/// The first row of a container's video header.
pub open spec fn video_row(p: UsmPartsModel) -> RowModel {
    p.header.video.table.rows[0]
}

/// The frame rate of a container is that of its video header: its numerator
/// and denominator, each as a signed number of 32 bits. There is none where the
/// header has no row, where it lacks one of the two, and where the denominator
/// is zero.
pub proof fn frame_rate_comes_from_video_header(p: UsmPartsModel, n: u32, d: u32)
    ensures
        ({
            let rate = frame_rate(metadata_sections(p), 0);
            let row = video_row(p);
            let rows = p.header.video.table.rows.len();
            &&& rows == 0 ==> rate is None
            &&& rows > 0 && (!row.contains_key("framerate_n"@) || !row.contains_key(
                "framerate_d"@,
            )) ==> rate is None
            &&& rows > 0 && row.contains_key("framerate_n"@) && row["framerate_n"@]
                == UtfModel::UInt(n) && row.contains_key("framerate_d"@) && row["framerate_d"@]
                == UtfModel::UInt(d) ==> rate == if d == 0 {
                None::<(i32, i32)>
            } else {
                Some(
                    (
                        signed(n as int, 4_294_967_296) as i32,
                        signed(d as int, 4_294_967_296) as i32,
                    ),
                )
            }
        }),
{
    sections_tell(p);
    kinds_differ();
    reveal_with_fuel(frame_rate, 9);
    if p.header.video.table.rows.len() > 0 {
        tables_keep_rows(p.header.video.table, 0, "framerate_n"@);
        tables_keep_rows(p.header.video.table, 0, "framerate_d"@);
    }
}

proof fn kinds_differ()
    ensures
        "crid"@ != "video_header"@,
        "audio_header"@ != "video_header"@,
        "video_header_end"@ != "video_header"@,
        "audio_header_end"@ != "video_header"@,
        "video_metadata"@ != "video_header"@,
        "video_metadata_end"@ != "video_header"@,
{
    reveal_strlit("crid");
    reveal_strlit("audio_header");
    reveal_strlit("video_header");
    reveal_strlit("video_header_end");
    reveal_strlit("audio_header_end");
    reveal_strlit("video_metadata");
    reveal_strlit("video_metadata_end");
    assert("crid"@.len() == 4 && "video_header"@.len() == 12);
    assert("audio_header"@[0] != "video_header"@[0]);
    assert("video_header_end"@.len() == 16 && "audio_header_end"@.len() == 16);
    assert("video_metadata"@.len() == 14 && "video_metadata_end"@.len() == 18);
}

} // verus!
