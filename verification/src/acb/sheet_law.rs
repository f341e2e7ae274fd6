//! What is extracted from a cue sheet that the builder wrote.

use vstd::prelude::*;
use crate::acb::afs::{
    archive_back, archive_reads_back, file_reads_back, ordered_keeps, AfsError, AfsModel,
    ArchiveModel,
};
use crate::acb::builder::{
    fits, layout_of, row_width_of, schema_size_of, table_bytes, type_of, ColumnDefModel, TableModel,
};
use crate::acb::consts::{
    COLUMN_TYPE_1BYTE, COLUMN_TYPE_2BYTE, COLUMN_TYPE_4BYTE, COLUMN_TYPE_DATA, COLUMN_TYPE_FLOAT,
    COLUMN_TYPE_STRING,
};
use crate::acb::extractor::{acb_archive, embedded_archive, ExtractError};
use crate::acb::round_trip::{
    build_then_parse, column_sound, constants_back, plain, plain_comes_back, row_back, row_sound,
    table_back, table_sound, unbroken, value_back, value_unbroken,
};
use crate::acb::sheet_model::{
    cue_name_table, cue_table, cue_used, music_awb, music_closing, music_header_table,
    music_opening, music_parts, music_playback, music_references, sequence_table, synth_table,
    track_error, track_event_table, track_table, waveform_table, AcbModel, MusicModel, MusicParts,
    RowTable, TrackModel,
};
use crate::acb::utf::{field, no_entries, UtfModel, ValueModel};
use crate::bytes::zeros;

verus! {

/// Whether all columns hold constants other than text under plain names.
pub(crate) open spec fn columns_fixed(t: TableModel) -> bool {
    forall|k: int|
        0 <= k < t.columns.len() ==> {
            let c = #[trigger] t.columns[k];
            &&& plain(c.name)
            &&& c.constant is Some
            &&& c == ColumnDefModel::fixed(c.name, c.constant->Some_0)
            &&& !(c.constant->Some_0 is String)
        }
}

proof fn column_fixed(t: TableModel, name: Seq<char>, v: ValueModel)
    requires
        columns_fixed(t),
        plain(name),
        !(v is String),
    ensures
        columns_fixed(t.column(ColumnDefModel::fixed(name, v))),
{
    let u = t.column(ColumnDefModel::fixed(name, v));
    assert forall|k: int| 0 <= k < u.columns.len() implies {
        let c = #[trigger] u.columns[k];
        &&& plain(c.name)
        &&& c.constant is Some
        &&& c == ColumnDefModel::fixed(c.name, c.constant->Some_0)
        &&& !(c.constant->Some_0 is String)
    } by {
        if k < t.columns.len() {
            assert(u.columns[k] == t.columns[k]);
        }
    }
}

proof fn fixed_sizes(t: TableModel, n: nat)
    requires
        columns_fixed(t),
        n <= t.columns.len(),
    ensures
        schema_size_of(t, n) <= 13 * n,
        row_width_of(t, n) == 0,
    decreases n,
{
    if n > 0 {
        fixed_sizes(t, (n - 1) as nat);
        assert(t.columns[n - 1].constant is Some);
    }
}

pub(crate) proof fn fixed_row(t: TableModel, row: Map<Seq<char>, ValueModel>, n: nat)
    requires
        columns_fixed(t),
        n <= t.columns.len(),
    ensures
        row_back(t, row, n) == constants_back(t, t.columns.len()),
    decreases n,
{
    if n > 0 {
        fixed_row(t, row, (n - 1) as nat);
        assert(t.columns[n - 1].constant is Some);
    }
}

/// The type of a column of a music sheet, told by its name.
spec fn cell_type(name: Seq<char>) -> u8 {
    let n = name.len();
    let first = name[0];
    if n == 4 && first == 'S' || n == 7 && first == 'V' || first == 'F' {
        COLUMN_TYPE_4BYTE
    } else if n == 4 && first == 'N' || n == 13 && first == 'V' {
        COLUMN_TYPE_STRING
    } else if n == 9 {
        COLUMN_TYPE_FLOAT
    } else if first == 'N' {
        COLUMN_TYPE_2BYTE
    } else if n == 2 || n == 4 || n == 6 || n == 15 && first == 'C' || n == 17 && name[1] == 'a'
        || n == 21 && first == 'C' {
        COLUMN_TYPE_1BYTE
    } else {
        COLUMN_TYPE_DATA
    }
}

/// Whether a table under construction holds per-row columns of plain names
/// alone, and its row values of their types without a terminator.
spec fn cells_plain(r: RowTable, told: Told) -> bool {
    &&& r.table.rows.len() == 0
    &&& r.table.encoding == 0
    &&& r.table.name == "Header"@
    &&& forall|k: int|
        0 <= k < r.table.columns.len() ==> {
            let c = #[trigger] r.table.columns[k];
            plain(c.name) && c == ColumnDefModel::by_row(c.name, cell_type(c.name))
        }
    &&& forall|name: Seq<char>| #[trigger]
        r.row.contains_key(name) ==> {
            &&& type_of(r.row[name]) == cell_type(name)
            &&& value_unbroken(r.row[name])
            &&& value_named(name, told) is Some ==> Some(r.row[name]) == value_named(name, told)
        }
}

/// What the header of a music sheet tells.
pub(crate) struct Told {
    pub(crate) parts: MusicParts,
    pub(crate) config: MusicModel,
    pub(crate) name: Seq<char>,
}

/// What is told of a track with its settings.
pub(crate) open spec fn told_of(track: TrackModel, c: MusicModel) -> Told {
    Told { parts: music_parts(track, c), config: c, name: track.name }
}

/// What a column of a music sheet holds, told by its name.
pub(crate) open spec fn value_named(name: Seq<char>, told: Told) -> Option<ValueModel> {
    let n = name.len();
    let first = name[0];
    let parts = told.parts;
    let c = told.config;
    if n == 4 && first == 'N' {
        Some(ValueModel::String(told.name))
    } else if n == 7 && first == 'V' {
        Some(ValueModel::U32(c.acb_version))
    } else if n == 7 && first == 'A' && name[1] == 'c' {
        Some(ValueModel::Data(c.acb_guid))
    } else if n == 8 && first == 'C' {
        Some(ValueModel::Data(parts.cue))
    } else if n == 9 && first == 'A' {
        Some(ValueModel::F32(c.acb_volume))
    } else if n == 10 && first == 'A' && name[1] == 'c' {
        Some(ValueModel::Data(c.acf_md5_hash))
    } else if n == 10 && first == 'S' {
        Some(ValueModel::Data(parts.synth))
    } else if n == 10 && first == 'T' {
        Some(ValueModel::Data(parts.track))
    } else if n == 12 && first == 'C' {
        Some(ValueModel::Data(parts.cue_name))
    } else if n == 13 && first == 'V' {
        Some(ValueModel::String(c.version_string))
    } else if n == 13 && first == 'W' {
        Some(ValueModel::Data(parts.waveform))
    } else if n == 13 && first == 'S' && name[1] == 'e' {
        Some(ValueModel::Data(parts.sequence))
    } else if n == 15 && first == 'C' {
        Some(ValueModel::U8(c.cue_priority_type))
    } else if n == 15 && first == 'S' {
        Some(ValueModel::Data(parts.seq_command))
    } else if n == 15 && first == 'T' {
        Some(ValueModel::Data(parts.track_event))
    } else if n == 16 && first == 'S' && name[3] == 'i' {
        Some(ValueModel::Data(parts.string_value))
    } else if n == 17 && first == 'A' {
        Some(ValueModel::Data(parts.acf_reference))
    } else if n == 17 && first == 'C' && name[1] == 'a' {
        Some(ValueModel::U8(c.category_extension))
    } else if n == 17 && first == 'S' {
        Some(ValueModel::Data(parts.synth_command))
    } else {
        None
    }
}

/// Whether a column of a table under construction has a name, and its row a
/// value under it.
pub(crate) open spec fn has_cell(r: RowTable, k: int, name: Seq<char>) -> bool {
    &&& 0 <= k < r.table.columns.len()
    &&& r.table.columns[k].name == name
    &&& r.row.contains_key(name)
}

proof fn cell_plain(
    r: RowTable,
    name: Seq<char>,
    typ: u8,
    v: ValueModel,
    told: Told,
)
    requires
        cells_plain(r, told),
        plain(name),
        typ == cell_type(name),
        typ == type_of(v),
        value_unbroken(v),
        value_named(name, told) is Some ==> Some(v) == value_named(name, told),
    ensures
        cells_plain(r.cell(name, typ, v), told),
        r.cell(name, typ, v).table.columns.len() == r.table.columns.len() + 1,
{
    let u = r.cell(name, typ, v);
    assert forall|k: int| 0 <= k < u.table.columns.len() implies {
        let c = #[trigger] u.table.columns[k];
        plain(c.name) && c == ColumnDefModel::by_row(c.name, cell_type(c.name))
    } by {
        if k < r.table.columns.len() {
            assert(u.table.columns[k] == r.table.columns[k]);
        }
    }
}

/// Whether a table has a column for the archive and its row the archive.
spec fn holds_archive(r: RowTable, b: Seq<u8>) -> bool {
    &&& exists|k: int|
        0 <= k < r.table.columns.len() && (#[trigger] r.table.columns[k]).name == "AwbFile"@
    &&& r.row.contains_key("AwbFile"@)
    &&& r.row["AwbFile"@] == ValueModel::Data(b)
}

proof fn archive_put(r: RowTable, b: Seq<u8>)
    ensures
        holds_archive(r.cell("AwbFile"@, COLUMN_TYPE_DATA, ValueModel::Data(b)), b),
{
    let u = r.cell("AwbFile"@, COLUMN_TYPE_DATA, ValueModel::Data(b));
    assert(u.table.columns[r.table.columns.len() as int].name == "AwbFile"@);
}

proof fn archive_kept(r: RowTable, b: Seq<u8>, name: Seq<char>, typ: u8, v: ValueModel)
    requires
        holds_archive(r, b),
        name != "AwbFile"@,
    ensures
        holds_archive(r.cell(name, typ, v), b),
{
    let u = r.cell(name, typ, v);
    let k = choose|k: int|
        0 <= k < r.table.columns.len() && (#[trigger] r.table.columns[k]).name == "AwbFile"@;
    assert(u.table.columns[k] == r.table.columns[k]);
}

proof fn music_opening_held(from: RowTable, config: MusicModel, parts: MusicParts, told: Told)
    requires
        cells_plain(from, told),
        told.parts == parts,
        told.config == config,
    ensures
        cells_plain(music_opening(from, config, parts), told),
        music_opening(from, config, parts).table.columns.len() == from.table.columns.len() + 14,
{
    reveal_strlit("FileIdentifier");
    let c0 = from.cell("FileIdentifier"@, COLUMN_TYPE_4BYTE, ValueModel::U32(0));
    cell_plain(from, "FileIdentifier"@, COLUMN_TYPE_4BYTE, ValueModel::U32(0), told);
    reveal_strlit("Size");
    let c1 = c0.cell("Size"@, COLUMN_TYPE_4BYTE, ValueModel::U32(0));
    cell_plain(c0, "Size"@, COLUMN_TYPE_4BYTE, ValueModel::U32(0), told);
    reveal_strlit("Version");
    let c2 = c1.cell("Version"@, COLUMN_TYPE_4BYTE, ValueModel::U32(config.acb_version));
    cell_plain(c1, "Version"@, COLUMN_TYPE_4BYTE, ValueModel::U32(config.acb_version), told);
    reveal_strlit("Type");
    let c3 = c2.cell("Type"@, COLUMN_TYPE_1BYTE, ValueModel::U8(0));
    cell_plain(c2, "Type"@, COLUMN_TYPE_1BYTE, ValueModel::U8(0), told);
    reveal_strlit("Target");
    let c4 = c3.cell("Target"@, COLUMN_TYPE_1BYTE, ValueModel::U8(0));
    cell_plain(c3, "Target"@, COLUMN_TYPE_1BYTE, ValueModel::U8(0), told);
    reveal_strlit("AcfMd5Hash");
    let c5 = c4.cell("AcfMd5Hash"@, COLUMN_TYPE_DATA, ValueModel::Data(config.acf_md5_hash));
    cell_plain(c4, "AcfMd5Hash"@, COLUMN_TYPE_DATA, ValueModel::Data(config.acf_md5_hash), told);
    reveal_strlit("CategoryExtension");
    let c6 = c5.cell("CategoryExtension"@, COLUMN_TYPE_1BYTE, ValueModel::U8(config.category_extension));
    cell_plain(c5, "CategoryExtension"@, COLUMN_TYPE_1BYTE, ValueModel::U8(config.category_extension), told);
    reveal_strlit("CueTable");
    let c7 = c6.cell("CueTable"@, COLUMN_TYPE_DATA, ValueModel::Data(parts.cue));
    cell_plain(c6, "CueTable"@, COLUMN_TYPE_DATA, ValueModel::Data(parts.cue), told);
    reveal_strlit("CueNameTable");
    let c8 = c7.cell("CueNameTable"@, COLUMN_TYPE_DATA, ValueModel::Data(parts.cue_name));
    cell_plain(c7, "CueNameTable"@, COLUMN_TYPE_DATA, ValueModel::Data(parts.cue_name), told);
    reveal_strlit("WaveformTable");
    let c9 = c8.cell("WaveformTable"@, COLUMN_TYPE_DATA, ValueModel::Data(parts.waveform));
    cell_plain(c8, "WaveformTable"@, COLUMN_TYPE_DATA, ValueModel::Data(parts.waveform), told);
    reveal_strlit("AisacTable");
    let c10 = c9.cell("AisacTable"@, COLUMN_TYPE_DATA, ValueModel::Data(Seq::empty()));
    cell_plain(c9, "AisacTable"@, COLUMN_TYPE_DATA, ValueModel::Data(Seq::empty()), told);
    reveal_strlit("GraphTable");
    let c11 = c10.cell("GraphTable"@, COLUMN_TYPE_DATA, ValueModel::Data(Seq::empty()));
    cell_plain(c10, "GraphTable"@, COLUMN_TYPE_DATA, ValueModel::Data(Seq::empty()), told);
    reveal_strlit("GlobalAisacReferenceTable");
    let c12 = c11.cell("GlobalAisacReferenceTable"@, COLUMN_TYPE_DATA, ValueModel::Data(Seq::empty()));
    cell_plain(c11, "GlobalAisacReferenceTable"@, COLUMN_TYPE_DATA, ValueModel::Data(Seq::empty()), told);
    reveal_strlit("AisacNameTable");
    cell_plain(c12, "AisacNameTable"@, COLUMN_TYPE_DATA, ValueModel::Data(Seq::empty()), told);
}

proof fn music_playback_held(from: RowTable, config: MusicModel, parts: MusicParts, told: Told)
    requires
        cells_plain(from, told),
        told.parts == parts,
        told.config == config,
        unbroken(config.version_string),
    ensures
        cells_plain(music_playback(from, config, parts), told),
        music_playback(from, config, parts).table.columns.len() == from.table.columns.len() + 16,
        holds_archive(music_playback(from, config, parts), parts.awb),
{
    reveal_strlit("AwbFile");
    reveal_strlit("SynthTable");
    let c0 = from.cell("SynthTable"@, COLUMN_TYPE_DATA, ValueModel::Data(parts.synth));
    cell_plain(from, "SynthTable"@, COLUMN_TYPE_DATA, ValueModel::Data(parts.synth), told);
    reveal_strlit("SeqCommandTable");
    let c1 = c0.cell("SeqCommandTable"@, COLUMN_TYPE_DATA, ValueModel::Data(parts.seq_command));
    cell_plain(c0, "SeqCommandTable"@, COLUMN_TYPE_DATA, ValueModel::Data(parts.seq_command), told);
    reveal_strlit("TrackTable");
    let c2 = c1.cell("TrackTable"@, COLUMN_TYPE_DATA, ValueModel::Data(parts.track));
    cell_plain(c1, "TrackTable"@, COLUMN_TYPE_DATA, ValueModel::Data(parts.track), told);
    reveal_strlit("SequenceTable");
    let c3 = c2.cell("SequenceTable"@, COLUMN_TYPE_DATA, ValueModel::Data(parts.sequence));
    cell_plain(c2, "SequenceTable"@, COLUMN_TYPE_DATA, ValueModel::Data(parts.sequence), told);
    reveal_strlit("AisacControlNameTable");
    let c4 = c3.cell("AisacControlNameTable"@, COLUMN_TYPE_DATA, ValueModel::Data(Seq::empty()));
    cell_plain(c3, "AisacControlNameTable"@, COLUMN_TYPE_DATA, ValueModel::Data(Seq::empty()), told);
    reveal_strlit("AutoModulationTable");
    let c5 = c4.cell("AutoModulationTable"@, COLUMN_TYPE_DATA, ValueModel::Data(Seq::empty()));
    cell_plain(c4, "AutoModulationTable"@, COLUMN_TYPE_DATA, ValueModel::Data(Seq::empty()), told);
    reveal_strlit("StreamAwbTocWorkOld");
    let c6 = c5.cell("StreamAwbTocWorkOld"@, COLUMN_TYPE_DATA, ValueModel::Data(Seq::empty()));
    cell_plain(c5, "StreamAwbTocWorkOld"@, COLUMN_TYPE_DATA, ValueModel::Data(Seq::empty()), told);
    let c7 = c6.cell("AwbFile"@, COLUMN_TYPE_DATA, ValueModel::Data(parts.awb));
    cell_plain(c6, "AwbFile"@, COLUMN_TYPE_DATA, ValueModel::Data(parts.awb), told);
    archive_put(c6, parts.awb);
    reveal_strlit("VersionString");
    let c8 = c7.cell("VersionString"@, COLUMN_TYPE_STRING, ValueModel::String(config.version_string));
    cell_plain(c7, "VersionString"@, COLUMN_TYPE_STRING, ValueModel::String(config.version_string), told);
    assert("VersionString"@.len() != "AwbFile"@.len());
    archive_kept(c7, parts.awb, "VersionString"@, COLUMN_TYPE_STRING, ValueModel::String(config.version_string));
    reveal_strlit("CueLimitWorkTable");
    let c9 = c8.cell("CueLimitWorkTable"@, COLUMN_TYPE_DATA, ValueModel::Data(Seq::empty()));
    cell_plain(c8, "CueLimitWorkTable"@, COLUMN_TYPE_DATA, ValueModel::Data(Seq::empty()), told);
    assert("CueLimitWorkTable"@.len() != "AwbFile"@.len());
    archive_kept(c8, parts.awb, "CueLimitWorkTable"@, COLUMN_TYPE_DATA, ValueModel::Data(Seq::empty()));
    reveal_strlit("NumCueLimitListWorks");
    let c10 = c9.cell("NumCueLimitListWorks"@, COLUMN_TYPE_2BYTE, ValueModel::U16(0));
    cell_plain(c9, "NumCueLimitListWorks"@, COLUMN_TYPE_2BYTE, ValueModel::U16(0), told);
    assert("NumCueLimitListWorks"@.len() != "AwbFile"@.len());
    archive_kept(c9, parts.awb, "NumCueLimitListWorks"@, COLUMN_TYPE_2BYTE, ValueModel::U16(0));
    reveal_strlit("NumCueLimitNodeWorks");
    let c11 = c10.cell("NumCueLimitNodeWorks"@, COLUMN_TYPE_2BYTE, ValueModel::U16(0));
    cell_plain(c10, "NumCueLimitNodeWorks"@, COLUMN_TYPE_2BYTE, ValueModel::U16(0), told);
    assert("NumCueLimitNodeWorks"@.len() != "AwbFile"@.len());
    archive_kept(c10, parts.awb, "NumCueLimitNodeWorks"@, COLUMN_TYPE_2BYTE, ValueModel::U16(0));
    reveal_strlit("AcbGuid");
    let c12 = c11.cell("AcbGuid"@, COLUMN_TYPE_DATA, ValueModel::Data(config.acb_guid));
    cell_plain(c11, "AcbGuid"@, COLUMN_TYPE_DATA, ValueModel::Data(config.acb_guid), told);
    assert("AcbGuid"@[1] != "AwbFile"@[1]);
    archive_kept(c11, parts.awb, "AcbGuid"@, COLUMN_TYPE_DATA, ValueModel::Data(config.acb_guid));
    reveal_strlit("StreamAwbHash");
    let c13 = c12.cell("StreamAwbHash"@, COLUMN_TYPE_DATA, ValueModel::Data(zeros(16)));
    cell_plain(c12, "StreamAwbHash"@, COLUMN_TYPE_DATA, ValueModel::Data(zeros(16)), told);
    assert("StreamAwbHash"@.len() != "AwbFile"@.len());
    archive_kept(c12, parts.awb, "StreamAwbHash"@, COLUMN_TYPE_DATA, ValueModel::Data(zeros(16)));
    reveal_strlit("StreamAwbTocWork_Old");
    let c14 = c13.cell("StreamAwbTocWork_Old"@, COLUMN_TYPE_DATA, ValueModel::Data(Seq::empty()));
    cell_plain(c13, "StreamAwbTocWork_Old"@, COLUMN_TYPE_DATA, ValueModel::Data(Seq::empty()), told);
    assert("StreamAwbTocWork_Old"@.len() != "AwbFile"@.len());
    archive_kept(c13, parts.awb, "StreamAwbTocWork_Old"@, COLUMN_TYPE_DATA, ValueModel::Data(Seq::empty()));
    reveal_strlit("AcbVolume");
    cell_plain(c14, "AcbVolume"@, COLUMN_TYPE_FLOAT, ValueModel::F32(config.acb_volume), told);
    assert("AcbVolume"@.len() != "AwbFile"@.len());
    archive_kept(c14, parts.awb, "AcbVolume"@, COLUMN_TYPE_FLOAT, ValueModel::F32(config.acb_volume));
}

proof fn music_references_held(from: RowTable, config: MusicModel, parts: MusicParts, name: Seq<char>, b: Seq<u8>, told: Told)
    requires
        cells_plain(from, told),
        told.parts == parts,
        told.config == config,
        told.name == name,
        unbroken(name),
        holds_archive(from, b),
    ensures
        cells_plain(music_references(from, config, parts, name), told),
        music_references(from, config, parts, name).table.columns.len()
            == from.table.columns.len() + 16,
        holds_archive(music_references(from, config, parts, name), b),
{
    reveal_strlit("AwbFile");
    reveal_strlit("StringValueTable");
    let c0 = from.cell("StringValueTable"@, COLUMN_TYPE_DATA, ValueModel::Data(parts.string_value));
    cell_plain(from, "StringValueTable"@, COLUMN_TYPE_DATA, ValueModel::Data(parts.string_value), told);
    assert("StringValueTable"@.len() != "AwbFile"@.len());
    archive_kept(from, b, "StringValueTable"@, COLUMN_TYPE_DATA, ValueModel::Data(parts.string_value));
    reveal_strlit("OutsideLinkTable");
    let c1 = c0.cell("OutsideLinkTable"@, COLUMN_TYPE_DATA, ValueModel::Data(Seq::empty()));
    cell_plain(c0, "OutsideLinkTable"@, COLUMN_TYPE_DATA, ValueModel::Data(Seq::empty()), told);
    assert("OutsideLinkTable"@.len() != "AwbFile"@.len());
    archive_kept(c0, b, "OutsideLinkTable"@, COLUMN_TYPE_DATA, ValueModel::Data(Seq::empty()));
    reveal_strlit("BlockSequenceTable");
    let c2 = c1.cell("BlockSequenceTable"@, COLUMN_TYPE_DATA, ValueModel::Data(Seq::empty()));
    cell_plain(c1, "BlockSequenceTable"@, COLUMN_TYPE_DATA, ValueModel::Data(Seq::empty()), told);
    assert("BlockSequenceTable"@.len() != "AwbFile"@.len());
    archive_kept(c1, b, "BlockSequenceTable"@, COLUMN_TYPE_DATA, ValueModel::Data(Seq::empty()));
    reveal_strlit("BlockTable");
    let c3 = c2.cell("BlockTable"@, COLUMN_TYPE_DATA, ValueModel::Data(Seq::empty()));
    cell_plain(c2, "BlockTable"@, COLUMN_TYPE_DATA, ValueModel::Data(Seq::empty()), told);
    assert("BlockTable"@.len() != "AwbFile"@.len());
    archive_kept(c2, b, "BlockTable"@, COLUMN_TYPE_DATA, ValueModel::Data(Seq::empty()));
    reveal_strlit("Name");
    let c4 = c3.cell("Name"@, COLUMN_TYPE_STRING, ValueModel::String(name));
    cell_plain(c3, "Name"@, COLUMN_TYPE_STRING, ValueModel::String(name), told);
    assert("Name"@.len() != "AwbFile"@.len());
    archive_kept(c3, b, "Name"@, COLUMN_TYPE_STRING, ValueModel::String(name));
    reveal_strlit("CharacterEncodingType");
    let c5 = c4.cell("CharacterEncodingType"@, COLUMN_TYPE_1BYTE, ValueModel::U8(0));
    cell_plain(c4, "CharacterEncodingType"@, COLUMN_TYPE_1BYTE, ValueModel::U8(0), told);
    assert("CharacterEncodingType"@.len() != "AwbFile"@.len());
    archive_kept(c4, b, "CharacterEncodingType"@, COLUMN_TYPE_1BYTE, ValueModel::U8(0));
    reveal_strlit("EventTable");
    let c6 = c5.cell("EventTable"@, COLUMN_TYPE_DATA, ValueModel::Data(Seq::empty()));
    cell_plain(c5, "EventTable"@, COLUMN_TYPE_DATA, ValueModel::Data(Seq::empty()), told);
    assert("EventTable"@.len() != "AwbFile"@.len());
    archive_kept(c5, b, "EventTable"@, COLUMN_TYPE_DATA, ValueModel::Data(Seq::empty()));
    reveal_strlit("ActionTrackTable");
    let c7 = c6.cell("ActionTrackTable"@, COLUMN_TYPE_DATA, ValueModel::Data(Seq::empty()));
    cell_plain(c6, "ActionTrackTable"@, COLUMN_TYPE_DATA, ValueModel::Data(Seq::empty()), told);
    assert("ActionTrackTable"@.len() != "AwbFile"@.len());
    archive_kept(c6, b, "ActionTrackTable"@, COLUMN_TYPE_DATA, ValueModel::Data(Seq::empty()));
    reveal_strlit("AcfReferenceTable");
    let c8 = c7.cell("AcfReferenceTable"@, COLUMN_TYPE_DATA, ValueModel::Data(parts.acf_reference));
    cell_plain(c7, "AcfReferenceTable"@, COLUMN_TYPE_DATA, ValueModel::Data(parts.acf_reference), told);
    assert("AcfReferenceTable"@.len() != "AwbFile"@.len());
    archive_kept(c7, b, "AcfReferenceTable"@, COLUMN_TYPE_DATA, ValueModel::Data(parts.acf_reference));
    reveal_strlit("WaveformExtensionDataTable");
    let c9 = c8.cell("WaveformExtensionDataTable"@, COLUMN_TYPE_DATA, ValueModel::Data(Seq::empty()));
    cell_plain(c8, "WaveformExtensionDataTable"@, COLUMN_TYPE_DATA, ValueModel::Data(Seq::empty()), told);
    assert("WaveformExtensionDataTable"@.len() != "AwbFile"@.len());
    archive_kept(c8, b, "WaveformExtensionDataTable"@, COLUMN_TYPE_DATA, ValueModel::Data(Seq::empty()));
    reveal_strlit("BeatSyncInfoTable");
    let c10 = c9.cell("BeatSyncInfoTable"@, COLUMN_TYPE_DATA, ValueModel::Data(Seq::empty()));
    cell_plain(c9, "BeatSyncInfoTable"@, COLUMN_TYPE_DATA, ValueModel::Data(Seq::empty()), told);
    assert("BeatSyncInfoTable"@.len() != "AwbFile"@.len());
    archive_kept(c9, b, "BeatSyncInfoTable"@, COLUMN_TYPE_DATA, ValueModel::Data(Seq::empty()));
    reveal_strlit("CuePriorityType");
    let c11 = c10.cell("CuePriorityType"@, COLUMN_TYPE_1BYTE, ValueModel::U8(config.cue_priority_type));
    cell_plain(c10, "CuePriorityType"@, COLUMN_TYPE_1BYTE, ValueModel::U8(config.cue_priority_type), told);
    assert("CuePriorityType"@.len() != "AwbFile"@.len());
    archive_kept(c10, b, "CuePriorityType"@, COLUMN_TYPE_1BYTE, ValueModel::U8(config.cue_priority_type));
    reveal_strlit("NumCueLimit");
    let c12 = c11.cell("NumCueLimit"@, COLUMN_TYPE_2BYTE, ValueModel::U16(0));
    cell_plain(c11, "NumCueLimit"@, COLUMN_TYPE_2BYTE, ValueModel::U16(0), told);
    assert("NumCueLimit"@.len() != "AwbFile"@.len());
    archive_kept(c11, b, "NumCueLimit"@, COLUMN_TYPE_2BYTE, ValueModel::U16(0));
    reveal_strlit("TrackCommandTable");
    let c13 = c12.cell("TrackCommandTable"@, COLUMN_TYPE_DATA, ValueModel::Data(Seq::empty()));
    cell_plain(c12, "TrackCommandTable"@, COLUMN_TYPE_DATA, ValueModel::Data(Seq::empty()), told);
    assert("TrackCommandTable"@.len() != "AwbFile"@.len());
    archive_kept(c12, b, "TrackCommandTable"@, COLUMN_TYPE_DATA, ValueModel::Data(Seq::empty()));
    reveal_strlit("SynthCommandTable");
    let c14 = c13.cell("SynthCommandTable"@, COLUMN_TYPE_DATA, ValueModel::Data(parts.synth_command));
    cell_plain(c13, "SynthCommandTable"@, COLUMN_TYPE_DATA, ValueModel::Data(parts.synth_command), told);
    assert("SynthCommandTable"@.len() != "AwbFile"@.len());
    archive_kept(c13, b, "SynthCommandTable"@, COLUMN_TYPE_DATA, ValueModel::Data(parts.synth_command));
    reveal_strlit("TrackEventTable");
    cell_plain(c14, "TrackEventTable"@, COLUMN_TYPE_DATA, ValueModel::Data(parts.track_event), told);
    assert("TrackEventTable"@.len() != "AwbFile"@.len());
    archive_kept(c14, b, "TrackEventTable"@, COLUMN_TYPE_DATA, ValueModel::Data(parts.track_event));
}

proof fn music_closing_held(from: RowTable, b: Seq<u8>, told: Told)
    requires
        cells_plain(from, told),
        holds_archive(from, b),
    ensures
        cells_plain(music_closing(from), told),
        music_closing(from).table.columns.len() == from.table.columns.len() + 18,
        holds_archive(music_closing(from), b),
{
    reveal_strlit("AwbFile");
    reveal_strlit("SeqParameterPalletTable");
    let c0 = from.cell("SeqParameterPalletTable"@, COLUMN_TYPE_DATA, ValueModel::Data(Seq::empty()));
    cell_plain(from, "SeqParameterPalletTable"@, COLUMN_TYPE_DATA, ValueModel::Data(Seq::empty()), told);
    assert("SeqParameterPalletTable"@.len() != "AwbFile"@.len());
    archive_kept(from, b, "SeqParameterPalletTable"@, COLUMN_TYPE_DATA, ValueModel::Data(Seq::empty()));
    reveal_strlit("TrackParameterPalletTable");
    let c1 = c0.cell("TrackParameterPalletTable"@, COLUMN_TYPE_DATA, ValueModel::Data(Seq::empty()));
    cell_plain(c0, "TrackParameterPalletTable"@, COLUMN_TYPE_DATA, ValueModel::Data(Seq::empty()), told);
    assert("TrackParameterPalletTable"@.len() != "AwbFile"@.len());
    archive_kept(c0, b, "TrackParameterPalletTable"@, COLUMN_TYPE_DATA, ValueModel::Data(Seq::empty()));
    reveal_strlit("SynthParameterPalletTable");
    let c2 = c1.cell("SynthParameterPalletTable"@, COLUMN_TYPE_DATA, ValueModel::Data(Seq::empty()));
    cell_plain(c1, "SynthParameterPalletTable"@, COLUMN_TYPE_DATA, ValueModel::Data(Seq::empty()), told);
    assert("SynthParameterPalletTable"@.len() != "AwbFile"@.len());
    archive_kept(c1, b, "SynthParameterPalletTable"@, COLUMN_TYPE_DATA, ValueModel::Data(Seq::empty()));
    reveal_strlit("SoundGeneratorTable");
    let c3 = c2.cell("SoundGeneratorTable"@, COLUMN_TYPE_DATA, ValueModel::Data(Seq::empty()));
    cell_plain(c2, "SoundGeneratorTable"@, COLUMN_TYPE_DATA, ValueModel::Data(Seq::empty()), told);
    assert("SoundGeneratorTable"@.len() != "AwbFile"@.len());
    archive_kept(c2, b, "SoundGeneratorTable"@, COLUMN_TYPE_DATA, ValueModel::Data(Seq::empty()));
    reveal_strlit("InstrumentPluginTrackTable");
    let c4 = c3.cell("InstrumentPluginTrackTable"@, COLUMN_TYPE_DATA, ValueModel::Data(Seq::empty()));
    cell_plain(c3, "InstrumentPluginTrackTable"@, COLUMN_TYPE_DATA, ValueModel::Data(Seq::empty()), told);
    assert("InstrumentPluginTrackTable"@.len() != "AwbFile"@.len());
    archive_kept(c3, b, "InstrumentPluginTrackTable"@, COLUMN_TYPE_DATA, ValueModel::Data(Seq::empty()));
    reveal_strlit("InstrumentPluginParameterTable");
    let c5 = c4.cell("InstrumentPluginParameterTable"@, COLUMN_TYPE_DATA, ValueModel::Data(Seq::empty()));
    cell_plain(c4, "InstrumentPluginParameterTable"@, COLUMN_TYPE_DATA, ValueModel::Data(Seq::empty()), told);
    assert("InstrumentPluginParameterTable"@.len() != "AwbFile"@.len());
    archive_kept(c4, b, "InstrumentPluginParameterTable"@, COLUMN_TYPE_DATA, ValueModel::Data(Seq::empty()));
    reveal_strlit("R8");
    let c6 = c5.cell("R8"@, COLUMN_TYPE_1BYTE, ValueModel::U8(0));
    cell_plain(c5, "R8"@, COLUMN_TYPE_1BYTE, ValueModel::U8(0), told);
    assert("R8"@.len() != "AwbFile"@.len());
    archive_kept(c5, b, "R8"@, COLUMN_TYPE_1BYTE, ValueModel::U8(0));
    reveal_strlit("ProjectKey");
    let c7 = c6.cell("ProjectKey"@, COLUMN_TYPE_DATA, ValueModel::Data(Seq::empty()));
    cell_plain(c6, "ProjectKey"@, COLUMN_TYPE_DATA, ValueModel::Data(Seq::empty()), told);
    assert("ProjectKey"@.len() != "AwbFile"@.len());
    archive_kept(c6, b, "ProjectKey"@, COLUMN_TYPE_DATA, ValueModel::Data(Seq::empty()));
    reveal_strlit("R6");
    let c8 = c7.cell("R6"@, COLUMN_TYPE_1BYTE, ValueModel::U8(0));
    cell_plain(c7, "R6"@, COLUMN_TYPE_1BYTE, ValueModel::U8(0), told);
    assert("R6"@.len() != "AwbFile"@.len());
    archive_kept(c7, b, "R6"@, COLUMN_TYPE_1BYTE, ValueModel::U8(0));
    reveal_strlit("R5");
    let c9 = c8.cell("R5"@, COLUMN_TYPE_1BYTE, ValueModel::U8(0));
    cell_plain(c8, "R5"@, COLUMN_TYPE_1BYTE, ValueModel::U8(0), told);
    assert("R5"@.len() != "AwbFile"@.len());
    archive_kept(c8, b, "R5"@, COLUMN_TYPE_1BYTE, ValueModel::U8(0));
    reveal_strlit("R4");
    let c10 = c9.cell("R4"@, COLUMN_TYPE_1BYTE, ValueModel::U8(0));
    cell_plain(c9, "R4"@, COLUMN_TYPE_1BYTE, ValueModel::U8(0), told);
    assert("R4"@.len() != "AwbFile"@.len());
    archive_kept(c9, b, "R4"@, COLUMN_TYPE_1BYTE, ValueModel::U8(0));
    reveal_strlit("R3");
    let c11 = c10.cell("R3"@, COLUMN_TYPE_1BYTE, ValueModel::U8(0));
    cell_plain(c10, "R3"@, COLUMN_TYPE_1BYTE, ValueModel::U8(0), told);
    assert("R3"@.len() != "AwbFile"@.len());
    archive_kept(c10, b, "R3"@, COLUMN_TYPE_1BYTE, ValueModel::U8(0));
    reveal_strlit("R2");
    let c12 = c11.cell("R2"@, COLUMN_TYPE_1BYTE, ValueModel::U8(0));
    cell_plain(c11, "R2"@, COLUMN_TYPE_1BYTE, ValueModel::U8(0), told);
    assert("R2"@.len() != "AwbFile"@.len());
    archive_kept(c11, b, "R2"@, COLUMN_TYPE_1BYTE, ValueModel::U8(0));
    reveal_strlit("R1");
    let c13 = c12.cell("R1"@, COLUMN_TYPE_1BYTE, ValueModel::U8(0));
    cell_plain(c12, "R1"@, COLUMN_TYPE_1BYTE, ValueModel::U8(0), told);
    assert("R1"@.len() != "AwbFile"@.len());
    archive_kept(c12, b, "R1"@, COLUMN_TYPE_1BYTE, ValueModel::U8(0));
    reveal_strlit("R0");
    let c14 = c13.cell("R0"@, COLUMN_TYPE_1BYTE, ValueModel::U8(0));
    cell_plain(c13, "R0"@, COLUMN_TYPE_1BYTE, ValueModel::U8(0), told);
    assert("R0"@.len() != "AwbFile"@.len());
    archive_kept(c13, b, "R0"@, COLUMN_TYPE_1BYTE, ValueModel::U8(0));
    reveal_strlit("PaddingArea");
    let c15 = c14.cell("PaddingArea"@, COLUMN_TYPE_DATA, ValueModel::Data(Seq::empty()));
    cell_plain(c14, "PaddingArea"@, COLUMN_TYPE_DATA, ValueModel::Data(Seq::empty()), told);
    assert("PaddingArea"@.len() != "AwbFile"@.len());
    archive_kept(c14, b, "PaddingArea"@, COLUMN_TYPE_DATA, ValueModel::Data(Seq::empty()));
    reveal_strlit("StreamAwbTocWork");
    let c16 = c15.cell("StreamAwbTocWork"@, COLUMN_TYPE_DATA, ValueModel::Data(Seq::empty()));
    cell_plain(c15, "StreamAwbTocWork"@, COLUMN_TYPE_DATA, ValueModel::Data(Seq::empty()), told);
    assert("StreamAwbTocWork"@.len() != "AwbFile"@.len());
    archive_kept(c15, b, "StreamAwbTocWork"@, COLUMN_TYPE_DATA, ValueModel::Data(Seq::empty()));
    reveal_strlit("StreamAwbAfs2Header");
    cell_plain(c16, "StreamAwbAfs2Header"@, COLUMN_TYPE_DATA, ValueModel::Data(Seq::empty()), told);
    assert("StreamAwbAfs2Header"@.len() != "AwbFile"@.len());
    archive_kept(c16, b, "StreamAwbAfs2Header"@, COLUMN_TYPE_DATA, ValueModel::Data(Seq::empty()));
}

pub(crate) proof fn plain_columns(m: AcbModel)
    ensures
        ({
            let t = m.header_table();
            let last = if m.streaming {
                ColumnDefModel::fixed("StreamAwbHash"@, ValueModel::Data(zeros(16)))
            } else {
                ColumnDefModel::fixed("AwbFile"@, ValueModel::Data(m.awb().bytes(0)))
            };
            &&& t.columns.len() == 15
            &&& t.rows.len() == 1
            &&& t.encoding == 0
            &&& t.name == "Header"@
            &&& columns_fixed(t)
            &&& t.columns[7] == data_column("CueTable"@, cue_table(m.tracks))
            &&& t.columns[8] == data_column("CueNameTable"@, cue_name_table(m.tracks))
            &&& t.columns[9] == data_column("SequenceTable"@, sequence_table(m.tracks))
            &&& t.columns[10] == data_column("TrackTable"@, track_table(m.tracks))
            &&& t.columns[11] == data_column("TrackEventTable"@, track_event_table(m.tracks))
            &&& t.columns[12] == data_column(
                "WaveformTable"@,
                waveform_table(m.tracks, m.streaming),
            )
            &&& t.columns[13] == data_column("SynthTable"@, synth_table(m.tracks))
            &&& t.columns[14] == last
        }),
{
    reveal(AcbModel::header_table);
    let t0 = TableModel::named("Header"@);
    assert(columns_fixed(t0));
    reveal_strlit("FileIdentifier");
    let t1 = t0.column(ColumnDefModel::fixed("FileIdentifier"@, ValueModel::U32(0)));
    column_fixed(t0, "FileIdentifier"@, ValueModel::U32(0));
    reveal_strlit("Size");
    let t2 = t1.column(ColumnDefModel::fixed("Size"@, ValueModel::U32(0)));
    column_fixed(t1, "Size"@, ValueModel::U32(0));
    reveal_strlit("Version");
    let t3 = t2.column(ColumnDefModel::fixed("Version"@, ValueModel::U32(m.acb_version)));
    column_fixed(t2, "Version"@, ValueModel::U32(m.acb_version));
    reveal_strlit("Type");
    let t4 = t3.column(ColumnDefModel::fixed("Type"@, ValueModel::U8(0)));
    column_fixed(t3, "Type"@, ValueModel::U8(0));
    reveal_strlit("Target");
    let t5 = t4.column(ColumnDefModel::fixed("Target"@, ValueModel::U8(0)));
    column_fixed(t4, "Target"@, ValueModel::U8(0));
    reveal_strlit("AcbVolume");
    let t6 = t5.column(ColumnDefModel::fixed("AcbVolume"@, ValueModel::F32(0x3f80_0000)));
    column_fixed(t5, "AcbVolume"@, ValueModel::F32(0x3f80_0000));
    reveal_strlit("NumCueLimit");
    let t7 = t6.column(ColumnDefModel::fixed("NumCueLimit"@, ValueModel::U16((m.tracks.len() % 0x1_0000) as u16)));
    column_fixed(t6, "NumCueLimit"@, ValueModel::U16((m.tracks.len() % 0x1_0000) as u16));
    reveal_strlit("CueTable");
    let t8 = t7.column(ColumnDefModel::fixed("CueTable"@, ValueModel::Data(table_bytes(cue_table(m.tracks)))));
    column_fixed(t7, "CueTable"@, ValueModel::Data(table_bytes(cue_table(m.tracks))));
    reveal_strlit("CueNameTable");
    let t9 = t8.column(ColumnDefModel::fixed("CueNameTable"@, ValueModel::Data(table_bytes(cue_name_table(m.tracks)))));
    column_fixed(t8, "CueNameTable"@, ValueModel::Data(table_bytes(cue_name_table(m.tracks))));
    reveal_strlit("SequenceTable");
    let t10 = t9.column(ColumnDefModel::fixed("SequenceTable"@, ValueModel::Data(table_bytes(sequence_table(m.tracks)))));
    column_fixed(t9, "SequenceTable"@, ValueModel::Data(table_bytes(sequence_table(m.tracks))));
    reveal_strlit("TrackTable");
    let t11 = t10.column(ColumnDefModel::fixed("TrackTable"@, ValueModel::Data(table_bytes(track_table(m.tracks)))));
    column_fixed(t10, "TrackTable"@, ValueModel::Data(table_bytes(track_table(m.tracks))));
    reveal_strlit("TrackEventTable");
    let t12 = t11.column(ColumnDefModel::fixed("TrackEventTable"@, ValueModel::Data(table_bytes(track_event_table(m.tracks)))));
    column_fixed(t11, "TrackEventTable"@, ValueModel::Data(table_bytes(track_event_table(m.tracks))));
    reveal_strlit("WaveformTable");
    let t13 = t12.column(ColumnDefModel::fixed("WaveformTable"@, ValueModel::Data(table_bytes(waveform_table(m.tracks, m.streaming)))));
    column_fixed(t12, "WaveformTable"@, ValueModel::Data(table_bytes(waveform_table(m.tracks, m.streaming))));
    reveal_strlit("SynthTable");
    let t14 = t13.column(ColumnDefModel::fixed("SynthTable"@, ValueModel::Data(table_bytes(synth_table(m.tracks)))));
    column_fixed(t13, "SynthTable"@, ValueModel::Data(table_bytes(synth_table(m.tracks))));
    reveal_strlit("AwbFile");
    reveal_strlit("StreamAwbHash");
    let t15 = if m.streaming {
        column_fixed(t14, "StreamAwbHash"@, ValueModel::Data(zeros(16)));
        t14.column(ColumnDefModel::fixed("StreamAwbHash"@, ValueModel::Data(zeros(16))))
    } else {
        column_fixed(t14, "AwbFile"@, ValueModel::Data(m.awb().bytes(0)));
        t14.column(ColumnDefModel::fixed("AwbFile"@, ValueModel::Data(m.awb().bytes(0))))
    };
    assert(m.header_table() == t15.row(no_entries()));
    assert(m.header_table().columns == t15.columns);
}

/// A column that holds a table.
pub(crate) open spec fn data_column(name: Seq<char>, t: TableModel) -> ColumnDefModel {
    ColumnDefModel::fixed(name, ValueModel::Data(table_bytes(t)))
}

/// The cell of a per-row column is read under its name.
proof fn cell_read(t: TableModel, row: Map<Seq<char>, ValueModel>, n: nat, key: Seq<char>)
    requires
        n <= t.columns.len(),
        row.contains_key(key),
        forall|k: int|
            0 <= k < t.columns.len() ==> plain((#[trigger] t.columns[k]).name)
                && t.columns[k].constant is None,
    ensures
        (exists|k: int| 0 <= k < n && (#[trigger] t.columns[k]).name == key) ==> row_back(
            t,
            row,
            n,
        ).contains_key(key) && row_back(t, row, n)[key] == value_back(row[key]),
    decreases n,
{
    if n > 0 && exists|k: int| 0 <= k < n && (#[trigger] t.columns[k]).name == key {
        cell_read(t, row, (n - 1) as nat, key);
        let c = t.columns[n - 1];
        plain_comes_back(c.name);
        if c.name != key {
            let k = choose|k: int| 0 <= k < n && (#[trigger] t.columns[k]).name == key;
            assert(k < n - 1);
        }
    }
}

/// Without an error no two tracks have one cue id.
pub(crate) proof fn ids_differ(tracks: Seq<TrackModel>, i: nat)
    requires
        track_error(tracks, i) is None,
    ensures
        forall|a: int| i <= a < tracks.len() ==> (#[trigger] tracks[a]).cue_id <= 0xFFFF,
        forall|a: int, b: int|
            0 <= a < b < tracks.len() && i <= b ==> (#[trigger] tracks[a]).cue_id != (
            #[trigger] tracks[b]).cue_id,
    decreases tracks.len() - i,
{
    if i < tracks.len() {
        ids_differ(tracks, i + 1);
        let id = tracks[i as int].cue_id;
        assert(!cue_used(tracks, i, id));
        assert forall|a: int, b: int| 0 <= a < b < tracks.len() && i <= b implies (
        #[trigger] tracks[a]).cue_id != (#[trigger] tracks[b]).cue_id by {
            if b == i {
                assert(tracks[a].cue_id != id);
            }
        }
    }
}

/// A file of an archive whose ids differ is found under its id.
pub(crate) proof fn file_found(m: AfsModel, i: int)
    requires
        m.fits(0),
        m.alignment <= 0xFFFF,
        0 <= i < m.files.len(),
        m.files[i].0 <= 0xFFFF,
        forall|a: int, b: int|
            0 <= a < b < m.files.len() ==> (#[trigger] m.files[a]).0 != (#[trigger] m.files[b]).0,
    ensures
        archive_back(m).file(m.files[i].0 as i32) == Ok::<Seq<u8>, AfsError>(m.files[i].1),
{
    broadcast use vstd::seq_lib::group_to_multiset_ensures;

    let sorted = m.sorted();
    let f = m.files[i];
    ordered_keeps(m.files);
    assert(m.files.to_multiset().count(f) > 0) by {
        assert(m.files.contains(f));
    }
    assert(sorted.contains(f));
    let k = first_with(sorted, f.0, 0);
    first_is_first(sorted, f.0, 0, sorted.index_of(f));
    let g = sorted[k as int];
    assert(sorted.contains(g));
    assert(m.files.to_multiset().count(g) > 0);
    assert(m.files.contains(g));
    let x = m.files.index_of(g);
    if x < i {
        assert(m.files[x].0 != m.files[i].0);
    } else if i < x {
        assert(m.files[i].0 != m.files[x].0);
    }
    file_reads_back(m, k);
}

/// The first place from `n` on of a file with an id.
spec fn first_with(files: Seq<(u32, Seq<u8>)>, id: u32, n: nat) -> nat
    decreases files.len() - n,
{
    if n >= files.len() || files[n as int].0 == id {
        n
    } else {
        first_with(files, id, n + 1)
    }
}

proof fn first_is_first(files: Seq<(u32, Seq<u8>)>, id: u32, n: nat, at: int)
    requires
        n <= at < files.len(),
        files[at].0 == id,
        forall|j: int| 0 <= j < n ==> (#[trigger] files[j]).0 != id,
    ensures
        ({
            let k = first_with(files, id, n);
            &&& k < files.len()
            &&& files[k as int].0 == id
            &&& forall|j: int| 0 <= j < k ==> (#[trigger] files[j]).0 != id
        }),
    decreases files.len() - n,
{
    if files[n as int].0 != id {
        first_is_first(files, id, n + 1, at);
    }
}

proof fn fixed_layout(t: TableModel)
    requires
        columns_fixed(t),
        t.columns.len() == 15,
    ensures
        layout_of(t).rows_at < 0x8020,
        layout_of(t).row_width == 0,
{
    reveal(layout_of);
    fixed_sizes(t, t.columns.len());
}

pub(crate) proof fn fixed_sound(t: TableModel)
    requires
        fits(t),
        columns_fixed(t),
        t.columns.len() == 15,
        t.rows.len() == 1,
        t.encoding == 0,
        plain(t.name),
    ensures
        table_sound(t),
{
    fixed_layout(t);
    plain_comes_back(t.name);
    assert forall|k: int| 0 <= k < t.columns.len() implies column_sound(#[trigger] t.columns[k]) by {
        plain_comes_back(t.columns[k].name);
    }
    assert forall|i: int| 0 <= i < t.rows.len() implies row_sound(t, #[trigger] t.rows[i]) by {
        assert forall|k: int|
            0 <= k < t.columns.len() && (#[trigger] t.columns[k]).constant is None implies false by {
            assert(t.columns[k].constant is Some);
        }
    }
}

/// Whether the texts that a music sheet stores in its header hold no
/// terminator; other sheets store none there.
pub open spec fn texts_unbroken(m: AcbModel) -> bool {
    m.music is Some ==> unbroken(m.tracks[0].name) && unbroken(m.music->Some_0.version_string)
}

/// A sheet that fits, with an embedded archive, is one that a parser accepts.
pub proof fn sheet_sound(m: AcbModel)
    requires
        m.music is Some || !m.streaming,
        m.fits(),
        texts_unbroken(m),
    ensures
        table_sound(m.sheet()),
{
    match m.music {
        Some(c) => {
            music_holds_archive(m.tracks[0], c);
        },
        None => {
            plain_columns(m);
            reveal_strlit("Header");
            fixed_sound(m.sheet());
        },
    }
}

/// The archive in a sheet.
pub open spec fn sheet_awb(m: AcbModel) -> AfsModel {
    match m.music {
        Some(c) => music_awb(m.tracks[0], c),
        None => m.awb(),
    }
}

/// Whether the first row of a table that was read holds bytes as its archive.
spec fn row_has_archive(t: UtfModel, b: Seq<u8>) -> bool {
    &&& t.rows.len() == 1
    &&& t.rows[0].contains_key("AwbFile"@)
    &&& t.rows[0]["AwbFile"@] == ValueModel::Data(b)
}

proof fn plain_holds_archive(m: AcbModel)
    requires
        m.music is None,
        !m.streaming,
    ensures
        row_has_archive(table_back(m.sheet()), m.awb().bytes(0)),
{
    let t = m.sheet();
    plain_columns(m);
    fixed_row(t, t.rows[0], t.columns.len());
    plain_comes_back(t.columns[14].name);
    let rest = constants_back(t, 14);
    assert(constants_back(t, 15) == rest.insert("AwbFile"@, ValueModel::Data(m.awb().bytes(0))));
}

proof fn music_holds_archive(track: TrackModel, c: MusicModel)
    requires
        unbroken(track.name),
        unbroken(c.version_string),
    ensures
        row_has_archive(
            table_back(music_header_table(track.name, c, music_parts(track, c))),
            music_awb(track, c).bytes(0),
        ),
        fits(music_header_table(track.name, c, music_parts(track, c))) ==> table_sound(
            music_header_table(track.name, c, music_parts(track, c)),
        ),
{
    reveal(music_header_table);
    let told = told_of(track, c);
    let parts = music_parts(track, c);
    let t = music_header_table(track.name, c, parts);
    let start = RowTable {
        table: TableModel { data_item_alignment: 32, ..TableModel::named("Header"@) },
        row: no_entries(),
    };
    let a = music_opening(start, c, parts);
    let b = music_playback(a, c, parts);
    let d = music_references(b, c, parts, track.name);
    let e = music_closing(d);
    music_opening_held(start, c, parts, told);
    music_playback_held(a, c, parts, told);
    music_references_held(b, c, parts, track.name, parts.awb, told);
    music_closing_held(d, parts.awb, told);
    finished_holds(e, t, parts.awb, told);
    if fits(t) {
        cells_sound(e, t, told);
    }
}

proof fn opening_cells(from: RowTable, config: MusicModel, parts: MusicParts)
    ensures
        ({
            let to = music_opening(from, config, parts);
            let n = from.table.columns.len() as int;
            &&& has_cell(to, n + 7, "CueTable"@)
            &&& has_cell(to, n + 8, "CueNameTable"@)
            &&& has_cell(to, n + 9, "WaveformTable"@)
            &&& has_cell(to, n + 2, "Version"@)
            &&& has_cell(to, n + 5, "AcfMd5Hash"@)
            &&& has_cell(to, n + 6, "CategoryExtension"@)
            &&& to.table.columns.len() == n + 14
        }),
{
}

proof fn playback_cells(from: RowTable, config: MusicModel, parts: MusicParts)
    ensures
        ({
            let to = music_playback(from, config, parts);
            let n = from.table.columns.len() as int;
            &&& has_cell(to, n, "SynthTable"@)
            &&& has_cell(to, n + 2, "TrackTable"@)
            &&& has_cell(to, n + 3, "SequenceTable"@)
            &&& has_cell(to, n + 1, "SeqCommandTable"@)
            &&& has_cell(to, n + 8, "VersionString"@)
            &&& has_cell(to, n + 12, "AcbGuid"@)
            &&& has_cell(to, n + 15, "AcbVolume"@)
            &&& to.table.columns.len() == n + 16
            &&& forall|k: int, name: Seq<char>| #[trigger]
                has_cell(from, k, name) ==> has_cell(to, k, name)
        }),
{
}

proof fn reference_cells(
    from: RowTable,
    config: MusicModel,
    parts: MusicParts,
    name: Seq<char>,
)
    ensures
        ({
            let to = music_references(from, config, parts, name);
            let n = from.table.columns.len() as int;
            &&& has_cell(to, n + 15, "TrackEventTable"@)
            &&& has_cell(to, n, "StringValueTable"@)
            &&& has_cell(to, n + 4, "Name"@)
            &&& has_cell(to, n + 8, "AcfReferenceTable"@)
            &&& has_cell(to, n + 11, "CuePriorityType"@)
            &&& has_cell(to, n + 14, "SynthCommandTable"@)
            &&& to.table.columns.len() == n + 16
            &&& forall|k: int, key: Seq<char>| #[trigger]
                has_cell(from, k, key) ==> has_cell(to, k, key)
        }),
{
}

proof fn closing_cells(from: RowTable)
    ensures
        forall|k: int, name: Seq<char>| #[trigger]
            has_cell(from, k, name) ==> has_cell(music_closing(from), k, name),
{
}

/// Whether a name is that of a column that a music sheet is told by.
pub(crate) open spec fn walk_name(key: Seq<char>) -> bool {
    ||| key == "CueTable"@
    ||| key == "CueNameTable"@
    ||| key == "WaveformTable"@
    ||| key == "SynthTable"@
    ||| key == "TrackTable"@
    ||| key == "SequenceTable"@
    ||| key == "TrackEventTable"@
    ||| key == "Version"@
    ||| key == "AcfMd5Hash"@
    ||| key == "CategoryExtension"@
    ||| key == "SeqCommandTable"@
    ||| key == "VersionString"@
    ||| key == "AcbGuid"@
    ||| key == "AcbVolume"@
    ||| key == "StringValueTable"@
    ||| key == "Name"@
    ||| key == "AcfReferenceTable"@
    ||| key == "CuePriorityType"@
    ||| key == "SynthCommandTable"@
}

/// The row of a music sheet holds its tables and settings.
pub(crate) proof fn music_table_read(track: TrackModel, c: MusicModel, key: Seq<char>)
    requires
        unbroken(track.name),
        unbroken(c.version_string),
        walk_name(key),
        value_named(key, told_of(track, c)) is Some,
    ensures
        ({
            let row = table_back(
                music_header_table(track.name, c, music_parts(track, c)),
            ).rows[0];
            row.contains_key(key) && row[key] == value_back(
                value_named(key, told_of(track, c))->Some_0,
            )
        }),
{
    reveal(music_header_table);
    let told = told_of(track, c);
    let parts = music_parts(track, c);
    let t = music_header_table(track.name, c, parts);
    let start = RowTable {
        table: TableModel { data_item_alignment: 32, ..TableModel::named("Header"@) },
        row: no_entries(),
    };
    let a = music_opening(start, c, parts);
    let b = music_playback(a, c, parts);
    let d = music_references(b, c, parts, track.name);
    let e = music_closing(d);
    music_opening_held(start, c, parts, told);
    music_playback_held(a, c, parts, told);
    music_references_held(b, c, parts, track.name, parts.awb, told);
    music_closing_held(d, parts.awb, told);
    opening_cells(start, c, parts);
    playback_cells(a, c, parts);
    reference_cells(b, c, parts, track.name);
    closing_cells(d);
    assert(exists|k: int| #[trigger] has_cell(e, k, key)) by {
        assert(has_cell(e, 7, "CueTable"@));
        assert(has_cell(e, 8, "CueNameTable"@));
        assert(has_cell(e, 9, "WaveformTable"@));
        assert(has_cell(e, 14, "SynthTable"@));
        assert(has_cell(e, 16, "TrackTable"@));
        assert(has_cell(e, 17, "SequenceTable"@));
        assert(has_cell(e, 45, "TrackEventTable"@));
        assert(has_cell(e, 2, "Version"@));
        assert(has_cell(e, 5, "AcfMd5Hash"@));
        assert(has_cell(e, 6, "CategoryExtension"@));
        assert(has_cell(e, 15, "SeqCommandTable"@));
        assert(has_cell(e, 22, "VersionString"@));
        assert(has_cell(e, 26, "AcbGuid"@));
        assert(has_cell(e, 29, "AcbVolume"@));
        assert(has_cell(e, 30, "StringValueTable"@));
        assert(has_cell(e, 34, "Name"@));
        assert(has_cell(e, 38, "AcfReferenceTable"@));
        assert(has_cell(e, 41, "CuePriorityType"@));
        assert(has_cell(e, 44, "SynthCommandTable"@));
    }
    finished_reads(e, t, key, told);
}

proof fn finished_reads(e: RowTable, t: TableModel, key: Seq<char>, told: Told)
    requires
        cells_plain(e, told),
        t == e.finished(),
        exists|k: int| #[trigger] has_cell(e, k, key),
        value_named(key, told) is Some,
    ensures
        table_back(t).rows[0].contains_key(key),
        table_back(t).rows[0][key] == value_back(value_named(key, told)->Some_0),
{
    assert(t.rows[0] == e.row);
    assert forall|k: int| 0 <= k < t.columns.len() implies plain((#[trigger] t.columns[k]).name)
        && t.columns[k].constant is None by {
        let c = e.table.columns[k];
        assert(c == ColumnDefModel::by_row(c.name, cell_type(c.name)));
    }
    let k = choose|k: int| #[trigger] has_cell(e, k, key);
    assert(t.columns[k].name == key);
    cell_read(t, e.row, t.columns.len(), key);
}

proof fn cells_sizes(r: RowTable, t: TableModel, n: nat, told: Told)
    requires
        cells_plain(r, told),
        t.columns == r.table.columns,
        n <= t.columns.len(),
    ensures
        schema_size_of(t, n) == 5 * n,
        row_width_of(t, n) <= 8 * n,
    decreases n,
{
    if n > 0 {
        cells_sizes(r, t, (n - 1) as nat, told);
        let c = r.table.columns[n - 1];
        assert(c == ColumnDefModel::by_row(c.name, cell_type(c.name)));
    }
}

proof fn cells_sound(r: RowTable, t: TableModel, told: Told)
    requires
        cells_plain(r, told),
        t == r.finished(),
        fits(t),
        t.columns.len() == 64,
    ensures
        table_sound(t),
{
    reveal(layout_of);
    cells_sizes(r, t, t.columns.len(), told);
    reveal_strlit("Header");
    plain_comes_back(t.name);
    assert forall|k: int| 0 <= k < t.columns.len() implies column_sound(#[trigger] t.columns[k]) by {
        let c = r.table.columns[k];
        assert(c == ColumnDefModel::by_row(c.name, cell_type(c.name)));
        plain_comes_back(c.name);
    }
    assert forall|i: int| 0 <= i < t.rows.len() implies row_sound(t, #[trigger] t.rows[i]) by {
        assert(t.rows[i] == r.row);
        assert forall|k: int|
            0 <= k < t.columns.len() && (#[trigger] t.columns[k]).constant is None
                && r.row.contains_key(t.columns[k].name) implies type_of(
            r.row[t.columns[k].name],
        ) == t.columns[k].typ && value_unbroken(r.row[t.columns[k].name]) by {
            let c = r.table.columns[k];
            assert(c == ColumnDefModel::by_row(c.name, cell_type(c.name)));
        }
    }
}

proof fn finished_holds(e: RowTable, t: TableModel, b: Seq<u8>, told: Told)
    requires
        cells_plain(e, told),
        holds_archive(e, b),
        t == e.finished(),
    ensures
        row_has_archive(table_back(t), b),
{
    assert(t.rows[0] == e.row);
    assert forall|k: int| 0 <= k < t.columns.len() implies plain((#[trigger] t.columns[k]).name)
        && t.columns[k].constant is None by {
        let c = e.table.columns[k];
        assert(c == ColumnDefModel::by_row(c.name, cell_type(c.name)));
    }
    cell_read(t, e.row, t.columns.len(), "AwbFile"@);
}

/// Reading a built sheet with an embedded archive gives back the archive, and
/// the archive the data of every track: of a music sheet under the id of its
/// archive, else under the track's cue id.
pub proof fn sheet_reads_back(m: AcbModel, i: int)
    requires
        m.error() is None,
        m.fits(),
        m.music is Some || !m.streaming,
        texts_unbroken(m),
        0 <= i < m.tracks.len(),
    ensures
        ({
            let a = archive_back(sheet_awb(m));
            let id = match m.music {
                Some(c) => c.memory_awb_id as i32,
                None => m.tracks[i].cue_id as i32,
            };
            &&& acb_archive(m.acb_bytes(), 0) == Ok::<Option<ArchiveModel>, ExtractError>(Some(a))
            &&& a.file(id) == Ok::<Seq<u8>, AfsError>(m.tracks[i].data)
        }),
{
    let awb = sheet_awb(m);
    sheet_sound(m);
    match m.music {
        Some(c) => {
            music_holds_archive(m.tracks[0], c);
        },
        None => {
            plain_holds_archive(m);
        },
    }
    build_then_parse(m.sheet());
    archive_reads_back(awb);
    let row = table_back(m.sheet()).rows[0];
    assert(awb.bytes(0).len() > 0);
    assert(field(row, "AwbFile"@, |v: ValueModel| v.bytes()) == Some(awb.bytes(0)));
    assert(embedded_archive(row) == Some(archive_back(awb)));
    ids_differ(m.tracks, 0);
    file_found(awb, i);
}

/// Reading the external archive of a streamed sheet gives back the data of
/// every track under its cue id.
pub proof fn streamed_archive_reads_back(m: AcbModel, i: int)
    requires
        m.error() is None,
        m.fits(),
        m.music is None,
        m.streaming,
        0 <= i < m.tracks.len(),
    ensures
        ({
            let a = archive_back(m.awb());
            &&& crate::acb::afs::archive_of(m.awb_bytes()) == Ok::<ArchiveModel, AfsError>(a)
            &&& a.file(m.tracks[i].cue_id as i32) == Ok::<Seq<u8>, AfsError>(m.tracks[i].data)
        }),
{
    archive_reads_back(m.awb());
    ids_differ(m.tracks, 0);
    file_found(m.awb(), i);
}

} // verus!
