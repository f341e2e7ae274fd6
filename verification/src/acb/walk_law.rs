//! What a cue of a built sheet plays.

use vstd::prelude::*;
use crate::acb::afs::archive_of;
use crate::acb::builder::{
    fits, layout_of, row_width_of, schema_size_of, table_bytes, ColumnDefModel, TableModel,
};
use crate::acb::consts::{
    COLUMN_TYPE_1BYTE, COLUMN_TYPE_2BYTE, COLUMN_TYPE_4BYTE, COLUMN_TYPE_DATA, COLUMN_TYPE_STRING,
};
use crate::acb::extractor::acb_archive;
use crate::acb::round_trip::{
    build_then_parse, cell_of, constants_back, plain, plain_comes_back, plain_table_comes_back,
    table_plain,
};
use crate::acb::sheet_law::{
    columns_fixed, fixed_row, fixed_sound, ids_differ, plain_columns, sheet_reads_back,
    streamed_archive_reads_back,
};
use crate::acb::sheet_model::{
    cue_name_table, cue_table, sequence_table, synth_command, synth_table, track_event_table,
    track_table, waveform_table, AcbModel, TrackModel,
};
use crate::acb::utf::{utf_table, UtfModel, ValueModel};
use crate::bytes::be16;

verus! {

/// A row of a table that was read.
pub type Row = Map<Seq<char>, ValueModel>;

/// The table that a cell of a row holds.
#[verifier::opaque]
pub open spec fn table_in(row: Row, key: Seq<char>) -> UtfModel {
    utf_table(bytes_in(row, key), 0)->Ok_0
}

/// The bytes that a cell of a row holds.
pub open spec fn bytes_in(row: Row, key: Seq<char>) -> Seq<u8> {
    row[key]->Data_0
}

/// The 16-bit number that a cell of a row holds.
pub open spec fn number_in(row: Row, key: Seq<char>) -> int {
    row[key]->U16_0 as int
}

/// The number of two bytes, the high one first.
pub open spec fn pair_at(b: Seq<u8>, at: int) -> int {
    256 * b[at] + b[at + 1]
}

/// The row of the cue table with a number.
pub open spec fn cue_of(sheet: Row, i: int) -> Row {
    table_in(sheet, "CueTable"@).rows[i]
}

/// The sequence that a cue refers to.
pub open spec fn sequence_of(sheet: Row, i: int) -> Row {
    table_in(sheet, "SequenceTable"@).rows[number_in(cue_of(sheet, i), "ReferenceIndex"@)]
}

/// The track that a cue's sequence plays.
pub open spec fn track_of(sheet: Row, i: int) -> Row {
    table_in(sheet, "TrackTable"@).rows[pair_at(
        bytes_in(sequence_of(sheet, i), "TrackIndex"@),
        0,
    )]
}

/// The command that a cue's track runs.
pub open spec fn command_of(sheet: Row, i: int) -> Seq<u8> {
    bytes_in(
        table_in(sheet, "TrackEventTable"@).rows[number_in(track_of(sheet, i), "EventIndex"@)],
        "Command"@,
    )
}

/// The synth that a cue's command starts.
pub open spec fn synth_of(sheet: Row, i: int) -> Row {
    table_in(sheet, "SynthTable"@).rows[pair_at(command_of(sheet, i), 5)]
}

/// The waveform that a cue's synth plays.
pub open spec fn waveform_of(sheet: Row, i: int) -> Row {
    table_in(sheet, "WaveformTable"@).rows[pair_at(
        bytes_in(synth_of(sheet, i), "ReferenceItems"@),
        2,
    )]
}

/// Whether a sheet can be read, and has one row.
#[verifier::opaque]
pub open spec fn sheet_reads(m: AcbModel) -> bool {
    &&& utf_table(m.acb_bytes(), 0) is Ok
    &&& utf_table(m.acb_bytes(), 0)->Ok_0.rows.len() == 1
}

/// The row of a sheet.
#[verifier::opaque]
pub open spec fn sheet_row(m: AcbModel) -> Row {
    utf_table(m.acb_bytes(), 0)->Ok_0.rows[0]
}

/// What reading a sheet gives of a file: from the embedded archive, or from the
/// external one of a streamed sheet.
#[verifier::opaque]
pub open spec fn file_of_sheet(m: AcbModel, id: int) -> Option<Seq<u8>> {
    let archive = if m.streaming {
        match archive_of(m.awb_bytes()) {
            Ok(a) => Some(a),
            Err(_) => None,
        }
    } else {
        match acb_archive(m.acb_bytes(), 0) {
            Ok(a) => a,
            Err(_) => None,
        }
    };
    match archive {
        Some(a) => match a.file(id as i32) {
            Ok(d) => Some(d),
            Err(_) => None,
        },
        None => None,
    }
}

proof fn sizes_small(t: TableModel, n: nat)
    requires
        n <= t.columns.len(),
    ensures
        schema_size_of(t, n) <= 13 * n,
        row_width_of(t, n) <= 8 * n,
    decreases n,
{
    if n > 0 {
        sizes_small(t, (n - 1) as nat);
    }
}

pub(crate) proof fn layout_small(t: TableModel)
    requires
        t.columns.len() <= 64,
    ensures
        layout_of(t).rows_at < 0x8020,
        layout_of(t).row_width <= 0xFFFF,
{
    reveal(layout_of);
    sizes_small(t, t.columns.len());
}

/// A table that is read as it was built, cell by cell.
#[verifier::opaque]
spec fn reads_as(u: UtfModel, t: TableModel) -> bool {
    &&& u.rows.len() == t.rows.len()
    &&& forall|i: int, k: int|
        #![trigger u.rows[i], t.columns[k]]
        0 <= i < t.rows.len() && 0 <= k < t.columns.len() ==> u.rows[i].contains_key(
            t.columns[k].name,
        ) && u.rows[i][t.columns[k].name] == cell_of(t.rows[i], t.columns[k])
}

proof fn nested_reads(row: Row, key: Seq<char>, t: TableModel)
    requires
        row[key] == ValueModel::Data(table_bytes(t)),
        table_plain(t),
    ensures
        reads_as(table_in(row, key), t),
{
    reveal(table_in);
    reveal(reads_as);
    plain_table_comes_back(t);
}

proof fn cues_plain(tracks: Seq<TrackModel>)
    requires
        fits(cue_table(tracks)),
        tracks.len() <= 0xFFFF,
    ensures
        table_plain(cue_table(tracks)),
{
    let t = cue_table(tracks);
    layout_small(t);
    reveal_strlit("CueTable");
    reveal_strlit("CueId");
    reveal_strlit("ReferenceType");
    reveal_strlit("ReferenceIndex");
    assert(t.columns.len() == 3);
    assert(t.columns[0] == ColumnDefModel::by_row("CueId"@, COLUMN_TYPE_4BYTE));
    assert(t.columns[1] == ColumnDefModel::by_row("ReferenceType"@, COLUMN_TYPE_1BYTE));
    assert(t.columns[2] == ColumnDefModel::by_row("ReferenceIndex"@, COLUMN_TYPE_2BYTE));
    assert("CueId"@.len() != "ReferenceType"@.len());
    assert("CueId"@.len() != "ReferenceIndex"@.len());
    assert("ReferenceType"@.len() != "ReferenceIndex"@.len());
}

proof fn names_plain(tracks: Seq<TrackModel>)
    requires
        fits(cue_name_table(tracks)),
        tracks.len() <= 0xFFFF,
        forall|i: int| 0 <= i < tracks.len() ==> plain((#[trigger] tracks[i]).name),
    ensures
        table_plain(cue_name_table(tracks)),
{
    let t = cue_name_table(tracks);
    layout_small(t);
    reveal_strlit("CueNameTable");
    reveal_strlit("CueIndex");
    reveal_strlit("CueName");
    assert(t.columns.len() == 2);
    assert(t.columns[0] == ColumnDefModel::by_row("CueIndex"@, COLUMN_TYPE_2BYTE));
    assert(t.columns[1] == ColumnDefModel::by_row("CueName"@, COLUMN_TYPE_STRING));
    assert("CueIndex"@.len() != "CueName"@.len());
}

proof fn sequences_plain(tracks: Seq<TrackModel>)
    requires
        fits(sequence_table(tracks)),
        tracks.len() <= 0xFFFF,
    ensures
        table_plain(sequence_table(tracks)),
{
    let t = sequence_table(tracks);
    layout_small(t);
    reveal_strlit("SequenceTable");
    reveal_strlit("Type");
    reveal_strlit("NumTracks");
    reveal_strlit("TrackIndex");
    assert(t.columns.len() == 3);
    assert(t.columns[0] == ColumnDefModel::by_row("Type"@, COLUMN_TYPE_1BYTE));
    assert(t.columns[1] == ColumnDefModel::by_row("NumTracks"@, COLUMN_TYPE_2BYTE));
    assert(t.columns[2] == ColumnDefModel::by_row("TrackIndex"@, COLUMN_TYPE_DATA));
    assert("Type"@.len() != "NumTracks"@.len());
    assert("Type"@.len() != "TrackIndex"@.len());
    assert("NumTracks"@.len() != "TrackIndex"@.len());
}

proof fn tracks_plain(tracks: Seq<TrackModel>)
    requires
        fits(track_table(tracks)),
        tracks.len() <= 0xFFFF,
    ensures
        table_plain(track_table(tracks)),
{
    let t = track_table(tracks);
    layout_small(t);
    reveal_strlit("TrackTable");
    reveal_strlit("EventIndex");
    assert(t.columns.len() == 1);
    assert(t.columns[0] == ColumnDefModel::by_row("EventIndex"@, COLUMN_TYPE_2BYTE));
}

proof fn events_plain(tracks: Seq<TrackModel>)
    requires
        fits(track_event_table(tracks)),
        tracks.len() <= 0xFFFF,
    ensures
        table_plain(track_event_table(tracks)),
{
    let t = track_event_table(tracks);
    layout_small(t);
    reveal_strlit("TrackEventTable");
    reveal_strlit("Command");
    assert(t.columns.len() == 1);
    assert(t.columns[0] == ColumnDefModel::by_row("Command"@, COLUMN_TYPE_DATA));
}

proof fn synths_plain(tracks: Seq<TrackModel>)
    requires
        fits(synth_table(tracks)),
        tracks.len() <= 0xFFFF,
    ensures
        table_plain(synth_table(tracks)),
{
    let t = synth_table(tracks);
    layout_small(t);
    reveal_strlit("SynthTable");
    reveal_strlit("Type");
    reveal_strlit("VoiceLimitGroupName");
    reveal_strlit("ReferenceItems");
    assert(t.columns.len() == 3);
    assert(t.columns[0] == ColumnDefModel::by_row("Type"@, COLUMN_TYPE_1BYTE));
    assert(t.columns[1] == ColumnDefModel::by_row("VoiceLimitGroupName"@, COLUMN_TYPE_STRING));
    assert(t.columns[2] == ColumnDefModel::by_row("ReferenceItems"@, COLUMN_TYPE_DATA));
    assert("Type"@.len() != "VoiceLimitGroupName"@.len());
    assert("Type"@.len() != "ReferenceItems"@.len());
    assert("VoiceLimitGroupName"@.len() != "ReferenceItems"@.len());
}

proof fn waveform_names()
    ensures
        "Id"@ != "EncodeType"@,
        "Id"@ != "Streaming"@,
        "Id"@ != "MemoryAwbId"@,
        "Id"@ != "StreamAwbId"@,
        "Id"@ != "StreamAwbPortNo"@,
        "EncodeType"@ != "Streaming"@,
        "EncodeType"@ != "MemoryAwbId"@,
        "EncodeType"@ != "StreamAwbId"@,
        "EncodeType"@ != "StreamAwbPortNo"@,
        "Streaming"@ != "MemoryAwbId"@,
        "Streaming"@ != "StreamAwbId"@,
        "Streaming"@ != "StreamAwbPortNo"@,
        "MemoryAwbId"@ != "StreamAwbId"@,
        "MemoryAwbId"@ != "StreamAwbPortNo"@,
        "StreamAwbId"@ != "StreamAwbPortNo"@,
{
    reveal_strlit("Id");
    reveal_strlit("EncodeType");
    reveal_strlit("Streaming");
    reveal_strlit("MemoryAwbId");
    reveal_strlit("StreamAwbId");
    reveal_strlit("StreamAwbPortNo");
    assert("Id"@.len() == 2 && "EncodeType"@.len() == 10 && "Streaming"@.len() == 9);
    assert("MemoryAwbId"@.len() == 11 && "StreamAwbId"@.len() == 11);
    assert("StreamAwbPortNo"@.len() == 15);
    assert("MemoryAwbId"@[0] != "StreamAwbId"@[0]);
}

proof fn waveforms_plain(tracks: Seq<TrackModel>, streaming: bool)
    requires
        fits(waveform_table(tracks, streaming)),
        tracks.len() <= 0xFFFF,
    ensures
        table_plain(waveform_table(tracks, streaming)),
{
    let t = waveform_table(tracks, streaming);
    layout_small(t);
    waveform_names();
    reveal_strlit("WaveformTable");
    reveal_strlit("Id");
    reveal_strlit("EncodeType");
    reveal_strlit("Streaming");
    reveal_strlit("MemoryAwbId");
    reveal_strlit("StreamAwbId");
    reveal_strlit("StreamAwbPortNo");
    assert(t.columns.len() == 6);
    assert(t.columns[0] == ColumnDefModel::by_row("Id"@, COLUMN_TYPE_2BYTE));
    assert(t.columns[1] == ColumnDefModel::by_row("EncodeType"@, COLUMN_TYPE_1BYTE));
    assert(t.columns[2] == ColumnDefModel::by_row("Streaming"@, COLUMN_TYPE_1BYTE));
    assert(t.columns[3] == ColumnDefModel::by_row("MemoryAwbId"@, COLUMN_TYPE_2BYTE));
    assert(t.columns[4] == ColumnDefModel::by_row("StreamAwbId"@, COLUMN_TYPE_2BYTE));
    assert(t.columns[5] == ColumnDefModel::by_row("StreamAwbPortNo"@, COLUMN_TYPE_2BYTE));
}

/// A constant is found under its name where no later column has that name.
proof fn constant_found(t: TableModel, k: int, n: nat)
    requires
        columns_fixed(t),
        0 <= k < n <= t.columns.len(),
        forall|j: int| k < j < n ==> (#[trigger] t.columns[j]).name != t.columns[k].name,
    ensures
        constants_back(t, n).contains_key(t.columns[k].name),
        constants_back(t, n)[t.columns[k].name] == t.columns[k].constant->Some_0,
    decreases n,
{
    let c = t.columns[n - 1];
    assert(plain(c.name) && c.constant is Some);
    plain_comes_back(c.name);
    if k < n - 1 {
        constant_found(t, k, (n - 1) as nat);
    }
}

proof fn header_names()
    ensures
        "CueTable"@.len() == 8,
        "CueNameTable"@.len() == 12,
        "SequenceTable"@.len() == 13,
        "TrackTable"@.len() == 10,
        "TrackEventTable"@.len() == 15,
        "WaveformTable"@.len() == 13,
        "SynthTable"@.len() == 10,
        "StreamAwbHash"@.len() == 13,
        "AwbFile"@.len() == 7,
        "SequenceTable"@ != "WaveformTable"@,
        "SequenceTable"@ != "StreamAwbHash"@,
        "WaveformTable"@ != "StreamAwbHash"@,
        "TrackTable"@ != "SynthTable"@,
{
    reveal_strlit("CueTable");
    reveal_strlit("CueNameTable");
    reveal_strlit("SequenceTable");
    reveal_strlit("TrackTable");
    reveal_strlit("TrackEventTable");
    reveal_strlit("WaveformTable");
    reveal_strlit("SynthTable");
    reveal_strlit("StreamAwbHash");
    reveal_strlit("AwbFile");
    assert("SequenceTable"@[0] != "WaveformTable"@[0]);
    assert("SequenceTable"@[1] != "StreamAwbHash"@[1]);
    assert("WaveformTable"@[0] != "StreamAwbHash"@[0]);
    assert("TrackTable"@[0] != "SynthTable"@[0]);
}

/// Whether the row of a sheet holds a table.
#[verifier::opaque]
spec fn holds_table(m: AcbModel, key: Seq<char>, t: TableModel) -> bool {
    sheet_row(m)[key] == ValueModel::Data(table_bytes(t))
}

/// A sheet is read, and its row is made of the constants of its table.
proof fn sheet_opens(m: AcbModel)
    requires
        m.music is None,
        m.fits(),
    ensures
        sheet_reads(m),
        sheet_row(m) == constants_back(m.sheet(), 15),
{
    reveal(sheet_reads);
    reveal(sheet_row);
    let t = m.sheet();
    plain_columns(m);
    reveal_strlit("Header");
    fixed_sound(t);
    build_then_parse(t);
    fixed_row(t, t.rows[0], t.columns.len());
}

/// The row of a sheet holds its tables.
proof fn tables_found(m: AcbModel)
    requires
        m.music is None,
        m.fits(),
    ensures
        holds_table(m, "CueTable"@, cue_table(m.tracks)),
        holds_table(m, "CueNameTable"@, cue_name_table(m.tracks)),
        holds_table(m, "SequenceTable"@, sequence_table(m.tracks)),
        holds_table(m, "TrackTable"@, track_table(m.tracks)),
        holds_table(m, "TrackEventTable"@, track_event_table(m.tracks)),
        holds_table(m, "WaveformTable"@, waveform_table(m.tracks, m.streaming)),
        holds_table(m, "SynthTable"@, synth_table(m.tracks)),
{
    reveal(holds_table);
    let t = m.sheet();
    sheet_opens(m);
    plain_columns(m);
    header_names();
    constant_found(t, 7, 15);
    constant_found(t, 8, 15);
    constant_found(t, 9, 15);
    constant_found(t, 10, 15);
    constant_found(t, 11, 15);
    constant_found(t, 12, 15);
    constant_found(t, 13, 15);
}

proof fn held_reads(m: AcbModel, key: Seq<char>, t: TableModel)
    requires
        holds_table(m, key, t),
        table_plain(t),
    ensures
        reads_as(table_in(sheet_row(m), key), t),
{
    reveal(holds_table);
    nested_reads(sheet_row(m), key, t);
}

proof fn cue_cells(u: UtfModel, tracks: Seq<TrackModel>, i: int)
    requires
        reads_as(u, cue_table(tracks)),
        0 <= i < tracks.len() <= 0xFFFF,
    ensures
        u.rows.len() == tracks.len(),
        u.rows[i]["CueId"@] == ValueModel::U32(tracks[i].cue_id),
        u.rows[i]["ReferenceType"@] == ValueModel::U8(3),
        u.rows[i]["ReferenceIndex"@] == ValueModel::U16(i as u16),
{
    reveal(reads_as);
    reveal_strlit("CueId");
    reveal_strlit("ReferenceType");
    reveal_strlit("ReferenceIndex");
    assert("CueId"@.len() == 5 && "ReferenceType"@.len() == 13 && "ReferenceIndex"@.len() == 14);
    let t = cue_table(tracks);
    assert(t.columns[0].name == "CueId"@);
    assert(t.columns[1].name == "ReferenceType"@);
    assert(t.columns[2].name == "ReferenceIndex"@);
    let row = u.rows[i];
    assert(t.rows[i]["CueId"@] == ValueModel::U32(tracks[i].cue_id));
}

proof fn sequence_cells(u: UtfModel, tracks: Seq<TrackModel>, i: int)
    requires
        reads_as(u, sequence_table(tracks)),
        0 <= i < tracks.len() <= 0xFFFF,
    ensures
        u.rows[i]["NumTracks"@] == ValueModel::U16(1),
        u.rows[i]["TrackIndex"@] == ValueModel::Data(be16(i as u16)),
{
    reveal(reads_as);
    reveal_strlit("Type");
    reveal_strlit("NumTracks");
    reveal_strlit("TrackIndex");
    assert("Type"@.len() == 4 && "NumTracks"@.len() == 9 && "TrackIndex"@.len() == 10);
    let t = sequence_table(tracks);
    assert(t.columns[1].name == "NumTracks"@);
    assert(t.columns[2].name == "TrackIndex"@);
    let row = u.rows[i];
}

proof fn track_cells(u: UtfModel, tracks: Seq<TrackModel>, i: int)
    requires
        reads_as(u, track_table(tracks)),
        0 <= i < tracks.len() <= 0xFFFF,
    ensures
        u.rows[i]["EventIndex"@] == ValueModel::U16(i as u16),
{
    reveal(reads_as);
    assert(track_table(tracks).columns[0].name == "EventIndex"@);
    let row = u.rows[i];
}

proof fn event_cells(u: UtfModel, tracks: Seq<TrackModel>, i: int)
    requires
        reads_as(u, track_event_table(tracks)),
        0 <= i < tracks.len() <= 0xFFFF,
    ensures
        u.rows[i]["Command"@] == ValueModel::Data(synth_command(i as u16)),
{
    reveal(reads_as);
    assert(track_event_table(tracks).columns[0].name == "Command"@);
    let row = u.rows[i];
}

proof fn synth_cells(u: UtfModel, tracks: Seq<TrackModel>, i: int)
    requires
        reads_as(u, synth_table(tracks)),
        0 <= i < tracks.len() <= 0xFFFF,
    ensures
        u.rows[i]["ReferenceItems"@] == ValueModel::Data(be16(1) + be16(i as u16)),
{
    reveal(reads_as);
    assert(synth_table(tracks).columns[2].name == "ReferenceItems"@);
    let row = u.rows[i];
}

/// What a waveform row says of its track.
pub open spec fn waveform_tells(w: Row, t: TrackModel, streaming: bool) -> bool {
    let id = ValueModel::U16(t.cue_id as u16);
    let none = ValueModel::U16(0xFFFF);
    &&& w["Id"@] == id
    &&& w["EncodeType"@] == ValueModel::U8((t.encode_type as int % 256) as u8)
    &&& w["Streaming"@] == ValueModel::U8(if streaming { 1 } else { 0 })
    &&& w["MemoryAwbId"@] == if streaming { none } else { id }
    &&& w["StreamAwbId"@] == if streaming { id } else { none }
    &&& w["StreamAwbPortNo"@] == if streaming { ValueModel::U16(0) } else { none }
}

proof fn waveform_cells(u: UtfModel, tracks: Seq<TrackModel>, streaming: bool, i: int)
    requires
        reads_as(u, waveform_table(tracks, streaming)),
        0 <= i < tracks.len() <= 0xFFFF,
        tracks[i].cue_id <= 0xFFFF,
    ensures
        u.rows.len() == tracks.len(),
        waveform_tells(u.rows[i], tracks[i], streaming),
{
    reveal(reads_as);
    waveform_names();
    let w = waveform_table(tracks, streaming);
    assert(w.columns[0].name == "Id"@);
    assert(w.columns[1].name == "EncodeType"@);
    assert(w.columns[2].name == "Streaming"@);
    assert(w.columns[3].name == "MemoryAwbId"@);
    assert(w.columns[4].name == "StreamAwbId"@);
    assert(w.columns[5].name == "StreamAwbPortNo"@);
    let row = u.rows[i];
}

/// What the walk from a cue meets first.
proof fn walk_goes(m: AcbModel, i: int)
    requires
        m.music is None,
        m.error() is None,
        m.fits(),
        0 <= i < m.tracks.len(),
    ensures
        ({
            let s = sheet_row(m);
            &&& cue_of(s, i)["CueId"@] == ValueModel::U32(m.tracks[i].cue_id)
            &&& cue_of(s, i)["ReferenceType"@] == ValueModel::U8(3)
            &&& sequence_of(s, i)["NumTracks"@] == ValueModel::U16(1)
            &&& command_of(s, i) == synth_command(i as u16)
        }),
{
    let s = sheet_row(m);
    let tracks = m.tracks;
    tables_found(m);
    cues_plain(tracks);
    sequences_plain(tracks);
    tracks_plain(tracks);
    events_plain(tracks);
    held_reads(m, "CueTable"@, cue_table(tracks));
    held_reads(m, "SequenceTable"@, sequence_table(tracks));
    held_reads(m, "TrackTable"@, track_table(tracks));
    held_reads(m, "TrackEventTable"@, track_event_table(tracks));
    cue_cells(table_in(s, "CueTable"@), tracks, i);
    sequence_cells(table_in(s, "SequenceTable"@), tracks, i);
    track_cells(table_in(s, "TrackTable"@), tracks, i);
    event_cells(table_in(s, "TrackEventTable"@), tracks, i);
    assert(pair_at(be16(i as u16), 0) == i);
}

proof fn walk_ends(m: AcbModel, i: int)
    requires
        m.music is None,
        m.error() is None,
        m.fits(),
        0 <= i < m.tracks.len(),
    ensures
        bytes_in(synth_of(sheet_row(m), i), "ReferenceItems"@) == be16(1) + be16(i as u16),
        waveform_tells(waveform_of(sheet_row(m), i), m.tracks[i], m.streaming),
{
    let s = sheet_row(m);
    let tracks = m.tracks;
    tables_found(m);
    walk_goes(m, i);
    synths_plain(tracks);
    waveforms_plain(tracks, m.streaming);
    ids_differ(tracks, 0);
    held_reads(m, "SynthTable"@, synth_table(tracks));
    held_reads(m, "WaveformTable"@, waveform_table(tracks, m.streaming));
    synth_cells(table_in(s, "SynthTable"@), tracks, i);
    waveform_cells(table_in(s, "WaveformTable"@), tracks, m.streaming, i);
    assert(pair_at(synth_command(i as u16), 5) == i);
    assert(pair_at(be16(1) + be16(i as u16), 2) == i);
}

proof fn file_read(m: AcbModel, i: int)
    requires
        m.music is None,
        m.error() is None,
        m.fits(),
        0 <= i < m.tracks.len(),
    ensures
        file_of_sheet(m, m.tracks[i].cue_id as int) == Some(m.tracks[i].data),
{
    reveal(file_of_sheet);
    if m.streaming {
        streamed_archive_reads_back(m, i);
    } else {
        sheet_reads_back(m, i);
    }
}

/// Every cue of a built sheet plays its track. Cue `i` has the id of track `i`
/// and refers to a sequence of one track, which runs a command that starts a
/// synth, which plays a waveform. Its id in the archive where the waveform says
/// that it lies, the embedded or the external one, names the data of track `i`
/// there, and its encoding is that of track `i`.
pub proof fn cue_plays_its_track(m: AcbModel, i: int)
    requires
        m.music is None,
        m.error() is None,
        m.fits(),
        0 <= i < m.tracks.len(),
    ensures
        ({
            let s = sheet_row(m);
            let command = command_of(s, i);
            let items = bytes_in(synth_of(s, i), "ReferenceItems"@);
            let w = waveform_of(s, i);
            let id = number_in(w, if m.streaming { "StreamAwbId"@ } else { "MemoryAwbId"@ });
            &&& sheet_reads(m)
            &&& cue_of(s, i)["CueId"@] == ValueModel::U32(m.tracks[i].cue_id)
            &&& cue_of(s, i)["ReferenceType"@] == ValueModel::U8(3)
            &&& sequence_of(s, i)["NumTracks"@] == ValueModel::U16(1)
            &&& pair_at(command, 0) == 2000 && command[2] == 4 && pair_at(command, 3) == 2
            &&& pair_at(items, 0) == 1
            &&& waveform_tells(w, m.tracks[i], m.streaming)
            &&& file_of_sheet(m, id) == Some(m.tracks[i].data)
        }),
{
    sheet_opens(m);
    walk_goes(m, i);
    walk_ends(m, i);
    ids_differ(m.tracks, 0);
    file_read(m, i);
    assert(pair_at(be16(1) + be16(i as u16), 0) == 1);
    assert(pair_at(synth_command(i as u16), 0) == 2000);
    assert(pair_at(synth_command(i as u16), 3) == 2);
    assert(synth_command(i as u16)[2] == 4);
}

/// Every cue of a built sheet has the name of its track, where the names are
/// plain, and all tables of the walk have a row for every track.
pub proof fn cue_has_its_name(m: AcbModel, i: int)
    requires
        m.music is None,
        m.error() is None,
        m.fits(),
        0 <= i < m.tracks.len(),
        forall|k: int| 0 <= k < m.tracks.len() ==> plain((#[trigger] m.tracks[k]).name),
    ensures
        ({
            let s = sheet_row(m);
            let row = table_in(s, "CueNameTable"@).rows[i];
            &&& table_in(s, "CueTable"@).rows.len() == m.tracks.len()
            &&& table_in(s, "CueNameTable"@).rows.len() == m.tracks.len()
            &&& table_in(s, "WaveformTable"@).rows.len() == m.tracks.len()
            &&& row["CueName"@] == ValueModel::String(m.tracks[i].name)
            &&& number_in(row, "CueIndex"@) == i
        }),
{
    let s = sheet_row(m);
    let t = cue_name_table(m.tracks);
    tables_found(m);
    names_plain(m.tracks);
    cues_plain(m.tracks);
    waveforms_plain(m.tracks, m.streaming);
    ids_differ(m.tracks, 0);
    held_reads(m, "CueNameTable"@, t);
    held_reads(m, "CueTable"@, cue_table(m.tracks));
    held_reads(m, "WaveformTable"@, waveform_table(m.tracks, m.streaming));
    cue_cells(table_in(s, "CueTable"@), m.tracks, i);
    waveform_cells(table_in(s, "WaveformTable"@), m.tracks, m.streaming, i);
    name_cells(table_in(s, "CueNameTable"@), m.tracks, i);
}

proof fn name_cells(u: UtfModel, tracks: Seq<TrackModel>, i: int)
    requires
        reads_as(u, cue_name_table(tracks)),
        0 <= i < tracks.len() <= 0xFFFF,
    ensures
        u.rows.len() == tracks.len(),
        u.rows[i]["CueName"@] == ValueModel::String(tracks[i].name),
        u.rows[i]["CueIndex"@] == ValueModel::U16(i as u16),
{
    reveal(reads_as);
    reveal_strlit("CueIndex");
    reveal_strlit("CueName");
    assert("CueIndex"@.len() == 8 && "CueName"@.len() == 7);
    let t = cue_name_table(tracks);
    assert(t.columns[0].name == "CueIndex"@);
    assert(t.columns[1].name == "CueName"@);
    let row = u.rows[i];
}

/// What the row of a built sheet says of the sheet itself: its version, a
/// volume of one, and one cue for each track.
pub proof fn sheet_tells(m: AcbModel)
    requires
        m.music is None,
        m.error() is None,
        m.fits(),
    ensures
        ({
            let s = sheet_row(m);
            &&& s["Version"@] == ValueModel::U32(m.acb_version)
            &&& s["AcbVolume"@] == ValueModel::F32(0x3F80_0000)
            &&& s["NumCueLimit"@] == ValueModel::U16(m.tracks.len() as u16)
            &&& s["NumCueLimit"@]->U16_0 == m.tracks.len()
        }),
{
    let t = m.sheet();
    sheet_opens(m);
    plain_columns(m);
    opening_columns(m);
    opening_names(t);
    constant_found(t, 2, 15);
    constant_found(t, 5, 15);
    constant_found(t, 6, 15);
}

proof fn opening_columns(m: AcbModel)
    requires
        m.music is None,
    ensures
        ({
            let t = m.sheet();
            &&& t.columns.len() == 15
            &&& t.columns[2] == ColumnDefModel::fixed("Version"@, ValueModel::U32(m.acb_version))
            &&& t.columns[3].name == "Type"@
            &&& t.columns[4].name == "Target"@
            &&& t.columns[5] == ColumnDefModel::fixed("AcbVolume"@, ValueModel::F32(0x3f80_0000))
            &&& t.columns[6] == ColumnDefModel::fixed(
                "NumCueLimit"@,
                ValueModel::U16((m.tracks.len() % 0x1_0000) as u16),
            )
            &&& t.columns[7].name == "CueTable"@
            &&& t.columns[8].name == "CueNameTable"@
            &&& t.columns[9].name == "SequenceTable"@
            &&& t.columns[10].name == "TrackTable"@
            &&& t.columns[11].name == "TrackEventTable"@
            &&& t.columns[12].name == "WaveformTable"@
            &&& t.columns[13].name == "SynthTable"@
            &&& t.columns[14].name == if m.streaming { "StreamAwbHash"@ } else { "AwbFile"@ }
        }),
{
    reveal(AcbModel::header_table);
}

proof fn opening_names(t: TableModel)
    requires
        t.columns.len() == 15,
        t.columns[2].name == "Version"@,
        t.columns[3].name == "Type"@,
        t.columns[4].name == "Target"@,
        t.columns[5].name == "AcbVolume"@,
        t.columns[6].name == "NumCueLimit"@,
        t.columns[7].name == "CueTable"@,
        t.columns[8].name == "CueNameTable"@,
        t.columns[9].name == "SequenceTable"@,
        t.columns[10].name == "TrackTable"@,
        t.columns[11].name == "TrackEventTable"@,
        t.columns[12].name == "WaveformTable"@,
        t.columns[13].name == "SynthTable"@,
        t.columns[14].name == "StreamAwbHash"@ || t.columns[14].name == "AwbFile"@,
    ensures
        forall|j: int| 2 < j < 15 ==> (#[trigger] t.columns[j]).name != "Version"@,
        forall|j: int| 5 < j < 15 ==> (#[trigger] t.columns[j]).name != "AcbVolume"@,
        forall|j: int| 6 < j < 15 ==> (#[trigger] t.columns[j]).name != "NumCueLimit"@,
{
    header_names();
    reveal_strlit("Version");
    reveal_strlit("Type");
    reveal_strlit("Target");
    reveal_strlit("AcbVolume");
    reveal_strlit("NumCueLimit");
    reveal_strlit("AwbFile");
    assert("Version"@.len() == 7 && "Type"@.len() == 4 && "Target"@.len() == 6);
    assert("AcbVolume"@.len() == 9 && "NumCueLimit"@.len() == 11);
    assert("Version"@[0] != "AwbFile"@[0]);
    assert forall|j: int| 2 < j < 15 implies (#[trigger] t.columns[j]).name != "Version"@ by {
        assert(j == 3 || j == 4 || j == 5 || j == 6 || j == 7 || j == 8 || j == 9 || j == 10 || j
            == 11 || j == 12 || j == 13 || j == 14);
    }
    assert forall|j: int| 5 < j < 15 implies (#[trigger] t.columns[j]).name != "AcbVolume"@ by {
        assert(j == 6 || j == 7 || j == 8 || j == 9 || j == 10 || j == 11 || j == 12 || j == 13 || j
            == 14);
    }
    assert forall|j: int| 6 < j < 15 implies (#[trigger] t.columns[j]).name != "NumCueLimit"@ by {
        assert(j == 7 || j == 8 || j == 9 || j == 10 || j == 11 || j == 12 || j == 13 || j == 14);
    }
}

} // verus!
