//! What a cue of a built music sheet plays.

use vstd::prelude::*;
use crate::acb::builder::{fits, table_bytes, type_of, ColumnDefModel, TableModel};
use crate::acb::consts::{
    COLUMN_TYPE_1BYTE, COLUMN_TYPE_2BYTE, COLUMN_TYPE_4BYTE, COLUMN_TYPE_DATA, COLUMN_TYPE_STRING,
};
use crate::acb::extractor::acb_archive;
use crate::acb::round_trip::{
    build_then_parse, column_plain, column_sound, constants_back, plain, plain_comes_back, row_back,
    row_sound, table_back, table_sound, text_back, unbroken, value_back, value_unbroken,
};
use crate::acb::sheet_law::{
    music_table_read, sheet_reads_back, sheet_sound, texts_unbroken, told_of, value_named,
    walk_name,
};
use crate::acb::sheet_model::{
    cue_at, music_acf_reference_table, music_cue_columns, music_cue_name_table, music_cue_row,
    music_cue_table, music_header_table, music_info, music_seq_command_table,
    music_sequence_columns, music_sequence_row, music_sequence_table, music_string_value_table,
    music_synth_columns, music_synth_row, music_synth_table, music_track_columns,
    music_track_event_columns, music_track_event_row, music_track_event_table, music_track_row,
    music_track_table, music_waveform_table, sequence_command, synth_command, AcbModel,
    HcaTrackInfo, MusicModel,
};
use crate::acb::utf::ValueModel;
use crate::acb::walk_law::{
    bytes_in, command_of, cue_of, layout_small, number_in, pair_at, sequence_of, sheet_reads,
    sheet_row, synth_of, table_in, waveform_of, Row,
};
use crate::bytes::be16;

verus! {

/// Whether columns are made as a builder makes them, with plain texts, and a
/// row holds values of the types of those that are stored in it.
spec fn columns_named(cs: Seq<ColumnDefModel>, row: Row) -> bool {
    forall|k: int|
        0 <= k < cs.len() ==> {
            let c = #[trigger] cs[k];
            &&& column_plain(c)
            &&& c.constant is None ==> type_of(row[c.name]) == c.typ && value_unbroken(row[c.name])
        }
}

proof fn column_joins(t: TableModel, c: ColumnDefModel, row: Row)
    requires
        columns_named(t.columns, row),
        column_plain(c),
        c.constant is None ==> type_of(row[c.name]) == c.typ && value_unbroken(row[c.name]),
    ensures
        columns_named(t.column(c).columns, row),
{
    let u = t.column(c);
    assert forall|k: int| 0 <= k < u.columns.len() implies {
        let c = #[trigger] u.columns[k];
        &&& column_plain(c)
        &&& c.constant is None ==> type_of(row[c.name]) == c.typ && value_unbroken(row[c.name])
    } by {
        if k < t.columns.len() {
            assert(u.columns[k] == t.columns[k]);
        }
    }
}

proof fn named_sound(t: TableModel)
    requires
        fits(t),
        t.encoding <= 1,
        1 <= t.columns.len() <= 64,
        t.rows.len() <= u32::MAX,
        plain(t.name),
        t.rows.len() > 0,
        forall|i: int| 0 <= i < t.rows.len() ==> columns_named(t.columns, #[trigger] t.rows[i]),
    ensures
        table_sound(t),
{
    layout_small(t);
    plain_comes_back(t.name);
    assert(columns_named(t.columns, t.rows[0]));
    assert forall|k: int| 0 <= k < t.columns.len() implies column_sound(#[trigger] t.columns[k]) by {
        let c = t.columns[k];
        assert(column_plain(c));
        plain_comes_back(c.name);
        if let Some(ValueModel::String(s)) = c.constant {
            plain_comes_back(s);
        }
    }
    assert forall|i: int| 0 <= i < t.rows.len() implies row_sound(t, #[trigger] t.rows[i]) by {
        assert(columns_named(t.columns, t.rows[i]));
    }
}

/// A shared value is found among the shared ones.
proof fn shared_found(t: TableModel, row: Row, k: int, n: nat)
    requires
        columns_named(t.columns, row),
        0 <= k < n <= t.columns.len(),
        t.columns[k].constant is Some,
        forall|j: int|
            k < j < n && (#[trigger] t.columns[j]).constant is Some ==> t.columns[j].name
                != t.columns[k].name,
    ensures
        constants_back(t, n).contains_key(t.columns[k].name),
        constants_back(t, n)[t.columns[k].name] == value_back(t.columns[k].constant->Some_0),
    decreases n,
{
    let c = t.columns[n - 1];
    assert(column_plain(c));
    plain_comes_back(c.name);
    plain_comes_back(t.columns[k].name);
    if k < n - 1 {
        shared_found(t, row, k, (n - 1) as nat);
    }
}

/// A shared value stays where no stored column has its name.
proof fn shared_stays(t: TableModel, row: Row, k: int, n: nat)
    requires
        columns_named(t.columns, row),
        0 <= k < t.columns.len(),
        n <= t.columns.len(),
        t.columns[k].constant is Some,
        forall|j: int|
            k < j < t.columns.len() && (#[trigger] t.columns[j]).constant is Some
                ==> t.columns[j].name != t.columns[k].name,
        forall|j: int|
            0 <= j < n && (#[trigger] t.columns[j]).constant is None ==> t.columns[j].name
                != t.columns[k].name,
    ensures
        row_back(t, row, n).contains_key(t.columns[k].name),
        row_back(t, row, n)[t.columns[k].name] == value_back(t.columns[k].constant->Some_0),
    decreases n,
{
    if n == 0 {
        shared_found(t, row, k, t.columns.len());
    } else {
        shared_stays(t, row, k, (n - 1) as nat);
        let c = t.columns[n - 1];
        assert(column_plain(c));
        plain_comes_back(c.name);
    }
}

/// A stored value is found where no later stored column has its name.
proof fn stored_found(t: TableModel, row: Row, k: int, n: nat)
    requires
        columns_named(t.columns, row),
        0 <= k < n <= t.columns.len(),
        t.columns[k].constant is None,
        row.contains_key(t.columns[k].name),
        forall|j: int|
            k < j < n && (#[trigger] t.columns[j]).constant is None ==> t.columns[j].name
                != t.columns[k].name,
    ensures
        row_back(t, row, n).contains_key(t.columns[k].name),
        row_back(t, row, n)[t.columns[k].name] == value_back(row[t.columns[k].name]),
    decreases n,
{
    let c = t.columns[n - 1];
    assert(column_plain(c));
    plain_comes_back(c.name);
    if k < n - 1 {
        stored_found(t, row, k, (n - 1) as nat);
    }
}

/// What is read of a table that a music sheet holds.
#[verifier::opaque]
spec fn music_reads(s: Row, key: Seq<char>, t: TableModel) -> bool {
    table_in(s, key) == table_back(t)
}

proof fn held_table_reads(s: Row, key: Seq<char>, t: TableModel)
    requires
        s[key] == ValueModel::Data(table_bytes(t)),
        table_sound(t),
    ensures
        music_reads(s, key, t),
{
    reveal(music_reads);
    reveal(table_in);
    build_then_parse(t);
}

proof fn cue_columns(info: HcaTrackInfo, row: Row)
    requires
        row["CueId"@] is U32,
        row["ReferenceIndex"@] is U16,
    ensures
        columns_named(music_cue_columns(info).columns, row),
        music_cue_columns(info).columns.len() == 10,
        plain(music_cue_columns(info).name),
        music_cue_columns(info).columns[0] == ColumnDefModel::by_row("CueId"@, COLUMN_TYPE_4BYTE),
        music_cue_columns(info).columns[1] == ColumnDefModel::fixed("ReferenceType"@, ValueModel::U8(3)),
        music_cue_columns(info).columns[2] == ColumnDefModel::by_row("ReferenceIndex"@, COLUMN_TYPE_2BYTE),
        music_cue_columns(info).columns[3] == ColumnDefModel::fixed("UserData"@, ValueModel::String(Seq::empty())),
        music_cue_columns(info).columns[4] == ColumnDefModel::fixed("Worksize"@, ValueModel::U16(0)),
        music_cue_columns(info).columns[5] == ColumnDefModel::fixed("AisacControlMap"@, ValueModel::Data(Seq::empty())),
        music_cue_columns(info).columns[6] == ColumnDefModel::fixed("Length"@, ValueModel::U32(info.length_ms)),
        music_cue_columns(info).columns[7] == ColumnDefModel::fixed("NumAisacControlMaps"@, ValueModel::U8(0)),
        music_cue_columns(info).columns[8] == ColumnDefModel::fixed("HeaderVisibility"@, ValueModel::U8(1)),
        music_cue_columns(info).columns[9] == ColumnDefModel::fixed("NumRelatedWaveforms"@, ValueModel::U16(1)),
{
    reveal_strlit("Cue");
    let t0 = TableModel::named("Cue"@);
    reveal_strlit("CueId");
    let c0 = ColumnDefModel::by_row("CueId"@, COLUMN_TYPE_4BYTE);
    column_joins(t0, c0, row);
    let t1 = t0.column(c0);
    reveal_strlit("ReferenceType");
    let c1 = ColumnDefModel::fixed("ReferenceType"@, ValueModel::U8(3));
    column_joins(t1, c1, row);
    let t2 = t1.column(c1);
    reveal_strlit("ReferenceIndex");
    let c2 = ColumnDefModel::by_row("ReferenceIndex"@, COLUMN_TYPE_2BYTE);
    column_joins(t2, c2, row);
    let t3 = t2.column(c2);
    reveal_strlit("UserData");
    let c3 = ColumnDefModel::fixed("UserData"@, ValueModel::String(Seq::empty()));
    column_joins(t3, c3, row);
    let t4 = t3.column(c3);
    reveal_strlit("Worksize");
    let c4 = ColumnDefModel::fixed("Worksize"@, ValueModel::U16(0));
    column_joins(t4, c4, row);
    let t5 = t4.column(c4);
    reveal_strlit("AisacControlMap");
    let c5 = ColumnDefModel::fixed("AisacControlMap"@, ValueModel::Data(Seq::empty()));
    column_joins(t5, c5, row);
    let t6 = t5.column(c5);
    reveal_strlit("Length");
    let c6 = ColumnDefModel::fixed("Length"@, ValueModel::U32(info.length_ms));
    column_joins(t6, c6, row);
    let t7 = t6.column(c6);
    reveal_strlit("NumAisacControlMaps");
    let c7 = ColumnDefModel::fixed("NumAisacControlMaps"@, ValueModel::U8(0));
    column_joins(t7, c7, row);
    let t8 = t7.column(c7);
    reveal_strlit("HeaderVisibility");
    let c8 = ColumnDefModel::fixed("HeaderVisibility"@, ValueModel::U8(1));
    column_joins(t8, c8, row);
    let t9 = t8.column(c8);
    reveal_strlit("NumRelatedWaveforms");
    let c9 = ColumnDefModel::fixed("NumRelatedWaveforms"@, ValueModel::U16(1));
    column_joins(t9, c9, row);
    let t10 = t9.column(c9);
    assert(music_cue_columns(info) == t10);
}

proof fn sequence_columns(row: Row)
    requires
        row["TrackIndex"@] is Data,
        row["CommandIndex"@] is U16,
        row["ControlWorkArea1"@] is U16,
        row["ControlWorkArea2"@] is U16,
    ensures
        columns_named(music_sequence_columns().columns, row),
        music_sequence_columns().columns.len() == 16,
        plain(music_sequence_columns().name),
        music_sequence_columns().columns[0] == ColumnDefModel::fixed("PlaybackRatio"@, ValueModel::U16(100)),
        music_sequence_columns().columns[1] == ColumnDefModel::fixed("NumTracks"@, ValueModel::U16(1)),
        music_sequence_columns().columns[2] == ColumnDefModel::by_row("TrackIndex"@, COLUMN_TYPE_DATA),
        music_sequence_columns().columns[3] == ColumnDefModel::by_row("CommandIndex"@, COLUMN_TYPE_2BYTE),
        music_sequence_columns().columns[4] == ColumnDefModel::fixed("LocalAisacs"@, ValueModel::Data(Seq::empty())),
        music_sequence_columns().columns[5] == ColumnDefModel::fixed("GlobalAisacStartIndex"@, ValueModel::U16(0xffff)),
        music_sequence_columns().columns[6] == ColumnDefModel::fixed("GlobalAisacNumRefs"@, ValueModel::U16(0)),
        music_sequence_columns().columns[7] == ColumnDefModel::fixed("ParameterPallet"@, ValueModel::U16(0xffff)),
        music_sequence_columns().columns[8] == ColumnDefModel::fixed("ActionTrackStartIndex"@, ValueModel::U16(0xffff)),
        music_sequence_columns().columns[9] == ColumnDefModel::fixed("NumActionTracks"@, ValueModel::U16(0)),
        music_sequence_columns().columns[10] == ColumnDefModel::fixed("TrackValues"@, ValueModel::Data(Seq::empty())),
        music_sequence_columns().columns[11] == ColumnDefModel::fixed("Type"@, ValueModel::U8(0)),
        music_sequence_columns().columns[12] == ColumnDefModel::by_row("ControlWorkArea1"@, COLUMN_TYPE_2BYTE),
        music_sequence_columns().columns[13] == ColumnDefModel::by_row("ControlWorkArea2"@, COLUMN_TYPE_2BYTE),
        music_sequence_columns().columns[14] == ColumnDefModel::fixed("InstPluginTrackStartIndex"@, ValueModel::U16(0xffff)),
        music_sequence_columns().columns[15] == ColumnDefModel::fixed("NumInstPluginTracks"@, ValueModel::U16(0)),
{
    reveal_strlit("Sequence");
    let t0 = TableModel::named("Sequence"@);
    reveal_strlit("PlaybackRatio");
    let c0 = ColumnDefModel::fixed("PlaybackRatio"@, ValueModel::U16(100));
    column_joins(t0, c0, row);
    let t1 = t0.column(c0);
    reveal_strlit("NumTracks");
    let c1 = ColumnDefModel::fixed("NumTracks"@, ValueModel::U16(1));
    column_joins(t1, c1, row);
    let t2 = t1.column(c1);
    reveal_strlit("TrackIndex");
    let c2 = ColumnDefModel::by_row("TrackIndex"@, COLUMN_TYPE_DATA);
    column_joins(t2, c2, row);
    let t3 = t2.column(c2);
    reveal_strlit("CommandIndex");
    let c3 = ColumnDefModel::by_row("CommandIndex"@, COLUMN_TYPE_2BYTE);
    column_joins(t3, c3, row);
    let t4 = t3.column(c3);
    reveal_strlit("LocalAisacs");
    let c4 = ColumnDefModel::fixed("LocalAisacs"@, ValueModel::Data(Seq::empty()));
    column_joins(t4, c4, row);
    let t5 = t4.column(c4);
    reveal_strlit("GlobalAisacStartIndex");
    let c5 = ColumnDefModel::fixed("GlobalAisacStartIndex"@, ValueModel::U16(0xffff));
    column_joins(t5, c5, row);
    let t6 = t5.column(c5);
    reveal_strlit("GlobalAisacNumRefs");
    let c6 = ColumnDefModel::fixed("GlobalAisacNumRefs"@, ValueModel::U16(0));
    column_joins(t6, c6, row);
    let t7 = t6.column(c6);
    reveal_strlit("ParameterPallet");
    let c7 = ColumnDefModel::fixed("ParameterPallet"@, ValueModel::U16(0xffff));
    column_joins(t7, c7, row);
    let t8 = t7.column(c7);
    reveal_strlit("ActionTrackStartIndex");
    let c8 = ColumnDefModel::fixed("ActionTrackStartIndex"@, ValueModel::U16(0xffff));
    column_joins(t8, c8, row);
    let t9 = t8.column(c8);
    reveal_strlit("NumActionTracks");
    let c9 = ColumnDefModel::fixed("NumActionTracks"@, ValueModel::U16(0));
    column_joins(t9, c9, row);
    let t10 = t9.column(c9);
    reveal_strlit("TrackValues");
    let c10 = ColumnDefModel::fixed("TrackValues"@, ValueModel::Data(Seq::empty()));
    column_joins(t10, c10, row);
    let t11 = t10.column(c10);
    reveal_strlit("Type");
    let c11 = ColumnDefModel::fixed("Type"@, ValueModel::U8(0));
    column_joins(t11, c11, row);
    let t12 = t11.column(c11);
    reveal_strlit("ControlWorkArea1");
    let c12 = ColumnDefModel::by_row("ControlWorkArea1"@, COLUMN_TYPE_2BYTE);
    column_joins(t12, c12, row);
    let t13 = t12.column(c12);
    reveal_strlit("ControlWorkArea2");
    let c13 = ColumnDefModel::by_row("ControlWorkArea2"@, COLUMN_TYPE_2BYTE);
    column_joins(t13, c13, row);
    let t14 = t13.column(c13);
    reveal_strlit("InstPluginTrackStartIndex");
    let c14 = ColumnDefModel::fixed("InstPluginTrackStartIndex"@, ValueModel::U16(0xffff));
    column_joins(t14, c14, row);
    let t15 = t14.column(c14);
    reveal_strlit("NumInstPluginTracks");
    let c15 = ColumnDefModel::fixed("NumInstPluginTracks"@, ValueModel::U16(0));
    column_joins(t15, c15, row);
    let t16 = t15.column(c15);
    assert(music_sequence_columns() == t16);
}

proof fn track_columns(row: Row)
    requires
        row["EventIndex"@] is U16,
    ensures
        columns_named(music_track_columns().columns, row),
        music_track_columns().columns.len() == 12,
        plain(music_track_columns().name),
        music_track_columns().columns[0] == ColumnDefModel::by_row("EventIndex"@, COLUMN_TYPE_2BYTE),
        music_track_columns().columns[1] == ColumnDefModel::fixed("CommandIndex"@, ValueModel::U16(0xffff)),
        music_track_columns().columns[2] == ColumnDefModel::fixed("LocalAisacs"@, ValueModel::Data(Seq::empty())),
        music_track_columns().columns[3] == ColumnDefModel::fixed("GlobalAisacStartIndex"@, ValueModel::U16(0xffff)),
        music_track_columns().columns[4] == ColumnDefModel::fixed("GlobalAisacNumRefs"@, ValueModel::U16(0)),
        music_track_columns().columns[5] == ColumnDefModel::fixed("ParameterPallet"@, ValueModel::U16(0xffff)),
        music_track_columns().columns[6] == ColumnDefModel::fixed("TargetType"@, ValueModel::U8(0)),
        music_track_columns().columns[7] == ColumnDefModel::fixed("TargetName"@, ValueModel::String(Seq::empty())),
        music_track_columns().columns[8] == ColumnDefModel::fixed("TargetId"@, ValueModel::U32(0xffff_ffff)),
        music_track_columns().columns[9] == ColumnDefModel::fixed("TargetAcbName"@, ValueModel::String(Seq::empty())),
        music_track_columns().columns[10] == ColumnDefModel::fixed("Scope"@, ValueModel::U8(0)),
        music_track_columns().columns[11] == ColumnDefModel::fixed("TargetTrackNo"@, ValueModel::U16(0xffff)),
{
    reveal_strlit("Track");
    let t0 = TableModel::named("Track"@);
    reveal_strlit("EventIndex");
    let c0 = ColumnDefModel::by_row("EventIndex"@, COLUMN_TYPE_2BYTE);
    column_joins(t0, c0, row);
    let t1 = t0.column(c0);
    reveal_strlit("CommandIndex");
    let c1 = ColumnDefModel::fixed("CommandIndex"@, ValueModel::U16(0xffff));
    column_joins(t1, c1, row);
    let t2 = t1.column(c1);
    reveal_strlit("LocalAisacs");
    let c2 = ColumnDefModel::fixed("LocalAisacs"@, ValueModel::Data(Seq::empty()));
    column_joins(t2, c2, row);
    let t3 = t2.column(c2);
    reveal_strlit("GlobalAisacStartIndex");
    let c3 = ColumnDefModel::fixed("GlobalAisacStartIndex"@, ValueModel::U16(0xffff));
    column_joins(t3, c3, row);
    let t4 = t3.column(c3);
    reveal_strlit("GlobalAisacNumRefs");
    let c4 = ColumnDefModel::fixed("GlobalAisacNumRefs"@, ValueModel::U16(0));
    column_joins(t4, c4, row);
    let t5 = t4.column(c4);
    reveal_strlit("ParameterPallet");
    let c5 = ColumnDefModel::fixed("ParameterPallet"@, ValueModel::U16(0xffff));
    column_joins(t5, c5, row);
    let t6 = t5.column(c5);
    reveal_strlit("TargetType");
    let c6 = ColumnDefModel::fixed("TargetType"@, ValueModel::U8(0));
    column_joins(t6, c6, row);
    let t7 = t6.column(c6);
    reveal_strlit("TargetName");
    let c7 = ColumnDefModel::fixed("TargetName"@, ValueModel::String(Seq::empty()));
    column_joins(t7, c7, row);
    let t8 = t7.column(c7);
    reveal_strlit("TargetId");
    let c8 = ColumnDefModel::fixed("TargetId"@, ValueModel::U32(0xffff_ffff));
    column_joins(t8, c8, row);
    let t9 = t8.column(c8);
    reveal_strlit("TargetAcbName");
    let c9 = ColumnDefModel::fixed("TargetAcbName"@, ValueModel::String(Seq::empty()));
    column_joins(t9, c9, row);
    let t10 = t9.column(c9);
    reveal_strlit("Scope");
    let c10 = ColumnDefModel::fixed("Scope"@, ValueModel::U8(0));
    column_joins(t10, c10, row);
    let t11 = t10.column(c10);
    reveal_strlit("TargetTrackNo");
    let c11 = ColumnDefModel::fixed("TargetTrackNo"@, ValueModel::U16(0xffff));
    column_joins(t11, c11, row);
    let t12 = t11.column(c11);
    assert(music_track_columns() == t12);
}

proof fn event_columns(row: Row)
    requires
        row["Command"@] is Data,
    ensures
        columns_named(music_track_event_columns().columns, row),
        music_track_event_columns().columns.len() == 1,
        plain(music_track_event_columns().name),
        music_track_event_columns().columns[0] == ColumnDefModel::by_row("Command"@, COLUMN_TYPE_DATA),
{
    reveal_strlit("TrackEvent");
    let t0 = TableModel::named("TrackEvent"@);
    reveal_strlit("Command");
    let c0 = ColumnDefModel::by_row("Command"@, COLUMN_TYPE_DATA);
    column_joins(t0, c0, row);
    let t1 = t0.column(c0);
    assert(music_track_event_columns() == t1);
}

proof fn synth_columns(row: Row)
    requires
        row["CommandIndex"@] is U16,
        row["ReferenceItems"@] is Data,
        row["ControlWorkArea1"@] is U16,
        row["ControlWorkArea2"@] is U16,
    ensures
        columns_named(music_synth_columns().columns, row),
        music_synth_columns().columns.len() == 13,
        plain(music_synth_columns().name),
        music_synth_columns().columns[0] == ColumnDefModel::fixed("Type"@, ValueModel::U8(0)),
        music_synth_columns().columns[1] == ColumnDefModel::fixed("VoiceLimitGroupName"@, ValueModel::String(Seq::empty())),
        music_synth_columns().columns[2] == ColumnDefModel::by_row("CommandIndex"@, COLUMN_TYPE_2BYTE),
        music_synth_columns().columns[3] == ColumnDefModel::by_row("ReferenceItems"@, COLUMN_TYPE_DATA),
        music_synth_columns().columns[4] == ColumnDefModel::fixed("LocalAisacs"@, ValueModel::Data(Seq::empty())),
        music_synth_columns().columns[5] == ColumnDefModel::fixed("GlobalAisacStartIndex"@, ValueModel::U16(0xffff)),
        music_synth_columns().columns[6] == ColumnDefModel::fixed("GlobalAisacNumRefs"@, ValueModel::U16(0)),
        music_synth_columns().columns[7] == ColumnDefModel::by_row("ControlWorkArea1"@, COLUMN_TYPE_2BYTE),
        music_synth_columns().columns[8] == ColumnDefModel::by_row("ControlWorkArea2"@, COLUMN_TYPE_2BYTE),
        music_synth_columns().columns[9] == ColumnDefModel::fixed("TrackValues"@, ValueModel::Data(Seq::empty())),
        music_synth_columns().columns[10] == ColumnDefModel::fixed("ParameterPallet"@, ValueModel::U16(0xffff)),
        music_synth_columns().columns[11] == ColumnDefModel::fixed("ActionTrackStartIndex"@, ValueModel::U16(0xffff)),
        music_synth_columns().columns[12] == ColumnDefModel::fixed("NumActionTracks"@, ValueModel::U16(0)),
{
    reveal_strlit("Synth");
    let t0 = TableModel::named("Synth"@);
    reveal_strlit("Type");
    let c0 = ColumnDefModel::fixed("Type"@, ValueModel::U8(0));
    column_joins(t0, c0, row);
    let t1 = t0.column(c0);
    reveal_strlit("VoiceLimitGroupName");
    let c1 = ColumnDefModel::fixed("VoiceLimitGroupName"@, ValueModel::String(Seq::empty()));
    column_joins(t1, c1, row);
    let t2 = t1.column(c1);
    reveal_strlit("CommandIndex");
    let c2 = ColumnDefModel::by_row("CommandIndex"@, COLUMN_TYPE_2BYTE);
    column_joins(t2, c2, row);
    let t3 = t2.column(c2);
    reveal_strlit("ReferenceItems");
    let c3 = ColumnDefModel::by_row("ReferenceItems"@, COLUMN_TYPE_DATA);
    column_joins(t3, c3, row);
    let t4 = t3.column(c3);
    reveal_strlit("LocalAisacs");
    let c4 = ColumnDefModel::fixed("LocalAisacs"@, ValueModel::Data(Seq::empty()));
    column_joins(t4, c4, row);
    let t5 = t4.column(c4);
    reveal_strlit("GlobalAisacStartIndex");
    let c5 = ColumnDefModel::fixed("GlobalAisacStartIndex"@, ValueModel::U16(0xffff));
    column_joins(t5, c5, row);
    let t6 = t5.column(c5);
    reveal_strlit("GlobalAisacNumRefs");
    let c6 = ColumnDefModel::fixed("GlobalAisacNumRefs"@, ValueModel::U16(0));
    column_joins(t6, c6, row);
    let t7 = t6.column(c6);
    reveal_strlit("ControlWorkArea1");
    let c7 = ColumnDefModel::by_row("ControlWorkArea1"@, COLUMN_TYPE_2BYTE);
    column_joins(t7, c7, row);
    let t8 = t7.column(c7);
    reveal_strlit("ControlWorkArea2");
    let c8 = ColumnDefModel::by_row("ControlWorkArea2"@, COLUMN_TYPE_2BYTE);
    column_joins(t8, c8, row);
    let t9 = t8.column(c8);
    reveal_strlit("TrackValues");
    let c9 = ColumnDefModel::fixed("TrackValues"@, ValueModel::Data(Seq::empty()));
    column_joins(t9, c9, row);
    let t10 = t9.column(c9);
    reveal_strlit("ParameterPallet");
    let c10 = ColumnDefModel::fixed("ParameterPallet"@, ValueModel::U16(0xffff));
    column_joins(t10, c10, row);
    let t11 = t10.column(c10);
    reveal_strlit("ActionTrackStartIndex");
    let c11 = ColumnDefModel::fixed("ActionTrackStartIndex"@, ValueModel::U16(0xffff));
    column_joins(t11, c11, row);
    let t12 = t11.column(c11);
    reveal_strlit("NumActionTracks");
    let c12 = ColumnDefModel::fixed("NumActionTracks"@, ValueModel::U16(0));
    column_joins(t12, c12, row);
    let t13 = t12.column(c12);
    assert(music_synth_columns() == t13);
}
proof fn cue_row(c: MusicModel, i: int)
    ensures
        music_cue_row(c, i)["CueId"@] is U32,
        music_cue_row(c, i).contains_key("CueId"@),
        music_cue_row(c, i)["ReferenceIndex"@] is U16,
        music_cue_row(c, i).contains_key("ReferenceIndex"@),
        music_cue_row(c, i)["CueId"@] == ValueModel::U32(cue_at(c.cue_id, i)),
        music_cue_row(c, i)["ReferenceIndex"@] == ValueModel::U16(i as u16),
{
    reveal_strlit("CueId");
    reveal_strlit("ReferenceIndex");
    assert("CueId"@.len() == 5);
    assert("ReferenceIndex"@.len() == 14);
}

/// The cue table of a music sheet is read, row by row.
proof fn cue_found(info: HcaTrackInfo, c: MusicModel, i: int)
    requires
        fits(music_cue_table(info, c)),
        0 <= i < c.cue_count(),
    ensures
        table_sound(music_cue_table(info, c)),
        table_back(music_cue_table(info, c)).rows[i]["CueId"@] == ValueModel::U32(cue_at(c.cue_id, i)),
        table_back(music_cue_table(info, c)).rows[i]["ReferenceType"@] == ValueModel::U8(3),
        table_back(music_cue_table(info, c)).rows[i]["ReferenceIndex"@] == ValueModel::U16(i as u16),
{
    let t = music_cue_table(info, c);
    let row = music_cue_row(c, i);
    assert forall|j: int| 0 <= j < t.rows.len() implies columns_named(t.columns, #[trigger] t.rows[j]) by {
        cue_row(c, j);
        cue_columns(info, t.rows[j]);
    }
    cue_row(c, i);
    cue_columns(info, row);
    assert(t.rows[i] == row);
    named_sound(t);
    reveal_strlit("CueId");
    reveal_strlit("ReferenceType");
    reveal_strlit("ReferenceIndex");
    reveal_strlit("UserData");
    reveal_strlit("Worksize");
    reveal_strlit("AisacControlMap");
    reveal_strlit("Length");
    reveal_strlit("NumAisacControlMaps");
    reveal_strlit("HeaderVisibility");
    reveal_strlit("NumRelatedWaveforms");
    assert("CueId"@.len() == 5);
    assert("ReferenceType"@.len() == 13);
    assert("ReferenceIndex"@.len() == 14);
    assert("UserData"@.len() == 8);
    assert("Worksize"@.len() == 8);
    assert("AisacControlMap"@.len() == 15);
    assert("Length"@.len() == 6);
    assert("NumAisacControlMaps"@.len() == 19);
    assert("HeaderVisibility"@.len() == 16);
    assert("NumRelatedWaveforms"@.len() == 19);
    assert forall|j: int| 0 < j < 10 && (#[trigger] t.columns[j]).constant is None implies t.columns[j].name != t.columns[0].name by {
        assert(j == 1 || j == 2 || j == 3 || j == 4 || j == 5 || j == 6 || j == 7 || j == 8 || j == 9);
    }
    stored_found(t, row, 0, 10);
    assert forall|j: int| 1 < j < 10 && (#[trigger] t.columns[j]).constant is Some implies t.columns[j].name != t.columns[1].name by {
        assert(j == 2 || j == 3 || j == 4 || j == 5 || j == 6 || j == 7 || j == 8 || j == 9);
    }
    assert forall|j: int| 0 <= j < 10 && (#[trigger] t.columns[j]).constant is None implies t.columns[j].name != t.columns[1].name by {
        assert(j == 0 || j == 1 || j == 2 || j == 3 || j == 4 || j == 5 || j == 6 || j == 7 || j == 8 || j == 9);
    }
    shared_stays(t, row, 1, 10);
    assert forall|j: int| 2 < j < 10 && (#[trigger] t.columns[j]).constant is None implies t.columns[j].name != t.columns[2].name by {
        assert(j == 3 || j == 4 || j == 5 || j == 6 || j == 7 || j == 8 || j == 9);
    }
    stored_found(t, row, 2, 10);
}

proof fn sequence_row(c: MusicModel, i: int)
    ensures
        music_sequence_row(c, i)["TrackIndex"@] is Data,
        music_sequence_row(c, i).contains_key("TrackIndex"@),
        music_sequence_row(c, i)["CommandIndex"@] is U16,
        music_sequence_row(c, i).contains_key("CommandIndex"@),
        music_sequence_row(c, i)["ControlWorkArea1"@] is U16,
        music_sequence_row(c, i).contains_key("ControlWorkArea1"@),
        music_sequence_row(c, i)["ControlWorkArea2"@] is U16,
        music_sequence_row(c, i).contains_key("ControlWorkArea2"@),
        music_sequence_row(c, i)["TrackIndex"@] == ValueModel::Data(be16(i as u16)),
{
    reveal_strlit("TrackIndex");
    reveal_strlit("CommandIndex");
    reveal_strlit("ControlWorkArea1");
    reveal_strlit("ControlWorkArea2");
    assert("TrackIndex"@.len() == 10);
    assert("CommandIndex"@.len() == 12);
    assert("ControlWorkArea1"@.len() == 16);
    assert("ControlWorkArea2"@.len() == 16);
    assert("ControlWorkArea1"@[15] != "ControlWorkArea2"@[15]);
}

/// The sequence table of a music sheet is read, row by row.
proof fn sequence_found(c: MusicModel, i: int)
    requires
        fits(music_sequence_table(c)),
        0 <= i < c.cue_count(),
    ensures
        table_sound(music_sequence_table(c)),
        table_back(music_sequence_table(c)).rows[i]["NumTracks"@] == ValueModel::U16(1),
        table_back(music_sequence_table(c)).rows[i]["TrackIndex"@] == ValueModel::Data(be16(i as u16)),
{
    let t = music_sequence_table(c);
    let row = music_sequence_row(c, i);
    assert forall|j: int| 0 <= j < t.rows.len() implies columns_named(t.columns, #[trigger] t.rows[j]) by {
        sequence_row(c, j);
        sequence_columns(t.rows[j]);
    }
    sequence_row(c, i);
    sequence_columns(row);
    assert(t.rows[i] == row);
    named_sound(t);
    reveal_strlit("PlaybackRatio");
    reveal_strlit("NumTracks");
    reveal_strlit("TrackIndex");
    reveal_strlit("CommandIndex");
    reveal_strlit("LocalAisacs");
    reveal_strlit("GlobalAisacStartIndex");
    reveal_strlit("GlobalAisacNumRefs");
    reveal_strlit("ParameterPallet");
    reveal_strlit("ActionTrackStartIndex");
    reveal_strlit("NumActionTracks");
    reveal_strlit("TrackValues");
    reveal_strlit("Type");
    reveal_strlit("ControlWorkArea1");
    reveal_strlit("ControlWorkArea2");
    reveal_strlit("InstPluginTrackStartIndex");
    reveal_strlit("NumInstPluginTracks");
    assert("PlaybackRatio"@.len() == 13);
    assert("NumTracks"@.len() == 9);
    assert("TrackIndex"@.len() == 10);
    assert("CommandIndex"@.len() == 12);
    assert("LocalAisacs"@.len() == 11);
    assert("GlobalAisacStartIndex"@.len() == 21);
    assert("GlobalAisacNumRefs"@.len() == 18);
    assert("ParameterPallet"@.len() == 15);
    assert("ActionTrackStartIndex"@.len() == 21);
    assert("NumActionTracks"@.len() == 15);
    assert("TrackValues"@.len() == 11);
    assert("Type"@.len() == 4);
    assert("ControlWorkArea1"@.len() == 16);
    assert("ControlWorkArea2"@.len() == 16);
    assert("InstPluginTrackStartIndex"@.len() == 25);
    assert("NumInstPluginTracks"@.len() == 19);
    assert forall|j: int| 1 < j < 16 && (#[trigger] t.columns[j]).constant is Some implies t.columns[j].name != t.columns[1].name by {
        assert(j == 2 || j == 3 || j == 4 || j == 5 || j == 6 || j == 7 || j == 8 || j == 9 || j == 10 || j == 11 || j == 12 || j == 13 || j == 14 || j == 15);
    }
    assert forall|j: int| 0 <= j < 16 && (#[trigger] t.columns[j]).constant is None implies t.columns[j].name != t.columns[1].name by {
        assert(j == 0 || j == 1 || j == 2 || j == 3 || j == 4 || j == 5 || j == 6 || j == 7 || j == 8 || j == 9 || j == 10 || j == 11 || j == 12 || j == 13 || j == 14 || j == 15);
    }
    shared_stays(t, row, 1, 16);
    assert forall|j: int| 2 < j < 16 && (#[trigger] t.columns[j]).constant is None implies t.columns[j].name != t.columns[2].name by {
        assert(j == 3 || j == 4 || j == 5 || j == 6 || j == 7 || j == 8 || j == 9 || j == 10 || j == 11 || j == 12 || j == 13 || j == 14 || j == 15);
    }
    stored_found(t, row, 2, 16);
}

proof fn track_row(c: MusicModel, i: int)
    ensures
        music_track_row(c, i)["EventIndex"@] is U16,
        music_track_row(c, i).contains_key("EventIndex"@),
        music_track_row(c, i)["EventIndex"@] == ValueModel::U16(i as u16),
{
    reveal_strlit("EventIndex");
    assert("EventIndex"@.len() == 10);
}

/// The track table of a music sheet is read, row by row.
proof fn track_found(c: MusicModel, i: int)
    requires
        fits(music_track_table(c)),
        0 <= i < c.cue_count(),
    ensures
        table_sound(music_track_table(c)),
        table_back(music_track_table(c)).rows[i]["EventIndex"@] == ValueModel::U16(i as u16),
{
    let t = music_track_table(c);
    let row = music_track_row(c, i);
    assert forall|j: int| 0 <= j < t.rows.len() implies columns_named(t.columns, #[trigger] t.rows[j]) by {
        track_row(c, j);
        track_columns(t.rows[j]);
    }
    track_row(c, i);
    track_columns(row);
    assert(t.rows[i] == row);
    named_sound(t);
    reveal_strlit("EventIndex");
    reveal_strlit("CommandIndex");
    reveal_strlit("LocalAisacs");
    reveal_strlit("GlobalAisacStartIndex");
    reveal_strlit("GlobalAisacNumRefs");
    reveal_strlit("ParameterPallet");
    reveal_strlit("TargetType");
    reveal_strlit("TargetName");
    reveal_strlit("TargetId");
    reveal_strlit("TargetAcbName");
    reveal_strlit("Scope");
    reveal_strlit("TargetTrackNo");
    assert("EventIndex"@.len() == 10);
    assert("CommandIndex"@.len() == 12);
    assert("LocalAisacs"@.len() == 11);
    assert("GlobalAisacStartIndex"@.len() == 21);
    assert("GlobalAisacNumRefs"@.len() == 18);
    assert("ParameterPallet"@.len() == 15);
    assert("TargetType"@.len() == 10);
    assert("TargetName"@.len() == 10);
    assert("TargetId"@.len() == 8);
    assert("TargetAcbName"@.len() == 13);
    assert("Scope"@.len() == 5);
    assert("TargetTrackNo"@.len() == 13);
    assert forall|j: int| 0 < j < 12 && (#[trigger] t.columns[j]).constant is None implies t.columns[j].name != t.columns[0].name by {
        assert(j == 1 || j == 2 || j == 3 || j == 4 || j == 5 || j == 6 || j == 7 || j == 8 || j == 9 || j == 10 || j == 11);
    }
    stored_found(t, row, 0, 12);
}

proof fn event_row(c: MusicModel, i: int)
    ensures
        music_track_event_row(c, i)["Command"@] is Data,
        music_track_event_row(c, i).contains_key("Command"@),
        music_track_event_row(c, i)["Command"@] == ValueModel::Data(synth_command(i as u16)),
{
    reveal_strlit("Command");
    assert("Command"@.len() == 7);
}

/// The event table of a music sheet is read, row by row.
proof fn event_found(c: MusicModel, i: int)
    requires
        fits(music_track_event_table(c)),
        0 <= i < c.cue_count(),
    ensures
        table_sound(music_track_event_table(c)),
        table_back(music_track_event_table(c)).rows[i]["Command"@] == ValueModel::Data(synth_command(i as u16)),
{
    let t = music_track_event_table(c);
    let row = music_track_event_row(c, i);
    assert forall|j: int| 0 <= j < t.rows.len() implies columns_named(t.columns, #[trigger] t.rows[j]) by {
        event_row(c, j);
        event_columns(t.rows[j]);
    }
    event_row(c, i);
    event_columns(row);
    assert(t.rows[i] == row);
    named_sound(t);
    reveal_strlit("Command");
    assert("Command"@.len() == 7);
    stored_found(t, row, 0, 1);
}

proof fn synth_row(c: MusicModel, i: int)
    ensures
        music_synth_row(c, i)["CommandIndex"@] is U16,
        music_synth_row(c, i).contains_key("CommandIndex"@),
        music_synth_row(c, i)["ReferenceItems"@] is Data,
        music_synth_row(c, i).contains_key("ReferenceItems"@),
        music_synth_row(c, i)["ControlWorkArea1"@] is U16,
        music_synth_row(c, i).contains_key("ControlWorkArea1"@),
        music_synth_row(c, i)["ControlWorkArea2"@] is U16,
        music_synth_row(c, i).contains_key("ControlWorkArea2"@),
        music_synth_row(c, i)["ReferenceItems"@] == ValueModel::Data(be16(1) + be16(0)),
{
    reveal_strlit("CommandIndex");
    reveal_strlit("ReferenceItems");
    reveal_strlit("ControlWorkArea1");
    reveal_strlit("ControlWorkArea2");
    assert("CommandIndex"@.len() == 12);
    assert("ReferenceItems"@.len() == 14);
    assert("ControlWorkArea1"@.len() == 16);
    assert("ControlWorkArea2"@.len() == 16);
    assert("ControlWorkArea1"@[15] != "ControlWorkArea2"@[15]);
}

/// The synth table of a music sheet is read, row by row.
proof fn synth_found(c: MusicModel, i: int)
    requires
        fits(music_synth_table(c)),
        0 <= i < c.cue_count(),
    ensures
        table_sound(music_synth_table(c)),
        table_back(music_synth_table(c)).rows[i]["ReferenceItems"@] == ValueModel::Data(be16(1) + be16(0)),
{
    let t = music_synth_table(c);
    let row = music_synth_row(c, i);
    assert forall|j: int| 0 <= j < t.rows.len() implies columns_named(t.columns, #[trigger] t.rows[j]) by {
        synth_row(c, j);
        synth_columns(t.rows[j]);
    }
    synth_row(c, i);
    synth_columns(row);
    assert(t.rows[i] == row);
    named_sound(t);
    reveal_strlit("Type");
    reveal_strlit("VoiceLimitGroupName");
    reveal_strlit("CommandIndex");
    reveal_strlit("ReferenceItems");
    reveal_strlit("LocalAisacs");
    reveal_strlit("GlobalAisacStartIndex");
    reveal_strlit("GlobalAisacNumRefs");
    reveal_strlit("ControlWorkArea1");
    reveal_strlit("ControlWorkArea2");
    reveal_strlit("TrackValues");
    reveal_strlit("ParameterPallet");
    reveal_strlit("ActionTrackStartIndex");
    reveal_strlit("NumActionTracks");
    assert("Type"@.len() == 4);
    assert("VoiceLimitGroupName"@.len() == 19);
    assert("CommandIndex"@.len() == 12);
    assert("ReferenceItems"@.len() == 14);
    assert("LocalAisacs"@.len() == 11);
    assert("GlobalAisacStartIndex"@.len() == 21);
    assert("GlobalAisacNumRefs"@.len() == 18);
    assert("ControlWorkArea1"@.len() == 16);
    assert("ControlWorkArea2"@.len() == 16);
    assert("TrackValues"@.len() == 11);
    assert("ParameterPallet"@.len() == 15);
    assert("ActionTrackStartIndex"@.len() == 21);
    assert("NumActionTracks"@.len() == 15);
    assert forall|j: int| 3 < j < 13 && (#[trigger] t.columns[j]).constant is None implies t.columns[j].name != t.columns[3].name by {
        assert(j == 4 || j == 5 || j == 6 || j == 7 || j == 8 || j == 9 || j == 10 || j == 11 || j == 12);
    }
    stored_found(t, row, 3, 13);
}
/// A number by which short names are told apart.
spec fn mark(s: Seq<char>) -> int {
    0x200000 * s.len() + s[0] as int
}

proof fn waveform_marks()
    ensures
        mark("MemoryAwbId"@) == 0x200000 * 11 + 77,
        mark("EncodeType"@) == 0x200000 * 10 + 69,
        mark("Streaming"@) == 0x200000 * 9 + 83,
        mark("NumChannels"@) == 0x200000 * 11 + 78,
        mark("LoopFlag"@) == 0x200000 * 8 + 76,
        mark("SamplingRate"@) == 0x200000 * 12 + 83,
        mark("NumSamples"@) == 0x200000 * 10 + 78,
        mark("ExtensionData"@) == 0x200000 * 13 + 69,
        mark("StreamAwbPortNo"@) == 0x200000 * 15 + 83,
        mark("StreamAwbId"@) == 0x200000 * 11 + 83,
{
    reveal_strlit("MemoryAwbId");
    reveal_strlit("EncodeType");
    reveal_strlit("Streaming");
    reveal_strlit("NumChannels");
    reveal_strlit("LoopFlag");
    reveal_strlit("SamplingRate");
    reveal_strlit("NumSamples");
    reveal_strlit("ExtensionData");
    reveal_strlit("StreamAwbPortNo");
    reveal_strlit("StreamAwbId");
    assert('M' as int == 77 && 'E' as int == 69 && 'S' as int == 83);
    assert('N' as int == 78 && 'L' as int == 76);
}

proof fn waveform_named()
    ensures
        plain("Waveform"@),
        plain("MemoryAwbId"@),
        plain("EncodeType"@),
        plain("Streaming"@),
        plain("NumChannels"@),
        plain("LoopFlag"@),
        plain("SamplingRate"@),
        plain("NumSamples"@),
        plain("ExtensionData"@),
        plain("StreamAwbPortNo"@),
        plain("StreamAwbId"@),
{
    reveal_strlit("Waveform");
    reveal_strlit("MemoryAwbId");
    reveal_strlit("EncodeType");
    reveal_strlit("Streaming");
    reveal_strlit("NumChannels");
    reveal_strlit("LoopFlag");
    reveal_strlit("SamplingRate");
    reveal_strlit("NumSamples");
    reveal_strlit("ExtensionData");
    reveal_strlit("StreamAwbPortNo");
    reveal_strlit("StreamAwbId");
}

/// The waveform of a music sheet is read as the one row of its table.
proof fn waveform_found(encode_type: i32, info: HcaTrackInfo, c: MusicModel)
    requires
        fits(music_waveform_table(encode_type, info, c)),
    ensures
        table_sound(music_waveform_table(encode_type, info, c)),
        music_waveform_tells(
            table_back(music_waveform_table(encode_type, info, c)).rows[0],
            encode_type,
            info,
            c,
        ),
{
    let t = music_waveform_table(encode_type, info, c);
    let row = t.rows[0];
    waveform_marks();
    waveform_named();
    assert(t.rows.len() == 1);
    assert(t.columns.len() == 10);
    assert(t.columns[0] == ColumnDefModel::by_row("MemoryAwbId"@, COLUMN_TYPE_2BYTE));
    assert(t.columns[1] == ColumnDefModel::by_row("EncodeType"@, COLUMN_TYPE_1BYTE));
    assert(t.columns[2] == ColumnDefModel::by_row("Streaming"@, COLUMN_TYPE_1BYTE));
    assert(t.columns[3] == ColumnDefModel::by_row("NumChannels"@, COLUMN_TYPE_1BYTE));
    assert(t.columns[4] == ColumnDefModel::by_row("LoopFlag"@, COLUMN_TYPE_1BYTE));
    assert(t.columns[5] == ColumnDefModel::by_row("SamplingRate"@, COLUMN_TYPE_2BYTE));
    assert(t.columns[6] == ColumnDefModel::by_row("NumSamples"@, COLUMN_TYPE_4BYTE));
    assert(t.columns[7] == ColumnDefModel::by_row("ExtensionData"@, COLUMN_TYPE_2BYTE));
    assert(t.columns[8] == ColumnDefModel::by_row("StreamAwbPortNo"@, COLUMN_TYPE_2BYTE));
    assert(t.columns[9] == ColumnDefModel::by_row("StreamAwbId"@, COLUMN_TYPE_2BYTE));
    assert(row["MemoryAwbId"@] == ValueModel::U16(c.memory_awb_id));
    assert(row["EncodeType"@] == ValueModel::U8((encode_type as int % 0x100) as u8));
    assert(row["Streaming"@] == ValueModel::U8(0));
    assert(row["NumChannels"@] == ValueModel::U8(info.channels));
    assert(row["LoopFlag"@] == ValueModel::U8(1));
    assert(row["SamplingRate"@] == ValueModel::U16(info.sampling_rate));
    assert(row["NumSamples"@] == ValueModel::U32(info.num_samples));
    assert(row["ExtensionData"@] == ValueModel::U16(0xffff));
    assert(row["StreamAwbPortNo"@] == ValueModel::U16(0xffff));
    assert(row["StreamAwbId"@] == ValueModel::U16(0xffff));
    assert forall|j: int| 0 <= j < 10 implies column_plain(#[trigger] t.columns[j]) && type_of(
        row[t.columns[j].name],
    ) == t.columns[j].typ && value_unbroken(row[t.columns[j].name]) && t.columns[j].constant is None by {
        assert(j == 0 || j == 1 || j == 2 || j == 3 || j == 4 || j == 5 || j == 6 || j == 7 || j
            == 8 || j == 9);
    }
    assert(columns_named(t.columns, row));
    named_sound(t);
    assert forall|j: int, k: int| 0 <= j < k < 10 implies (#[trigger] t.columns[j]).name != (
    #[trigger] t.columns[k]).name by {
        assert(k == 1 || k == 2 || k == 3 || k == 4 || k == 5 || k == 6 || k == 7 || k == 8 || k
            == 9);
        assert(j == 0 || j == 1 || j == 2 || j == 3 || j == 4 || j == 5 || j == 6 || j == 7 || j
            == 8);
        assert(mark(t.columns[j].name) != mark(t.columns[k].name));
    }
    stored_found(t, row, 0, 10);
    stored_found(t, row, 1, 10);
    stored_found(t, row, 2, 10);
    stored_found(t, row, 3, 10);
    stored_found(t, row, 4, 10);
    stored_found(t, row, 5, 10);
    stored_found(t, row, 6, 10);
    stored_found(t, row, 9, 10);
}

/// What the waveform row of a music sheet says of its track.
pub open spec fn music_waveform_tells(
    w: Row,
    encode_type: i32,
    info: HcaTrackInfo,
    c: MusicModel,
) -> bool {
    &&& w["MemoryAwbId"@] == ValueModel::U16(c.memory_awb_id)
    &&& w["EncodeType"@] == ValueModel::U8((encode_type as int % 256) as u8)
    &&& w["Streaming"@] == ValueModel::U8(0)
    &&& w["NumChannels"@] == ValueModel::U8(info.channels)
    &&& w["LoopFlag"@] == ValueModel::U8(1)
    &&& w["SamplingRate"@] == ValueModel::U16(info.sampling_rate)
    &&& w["NumSamples"@] == ValueModel::U32(info.num_samples)
    &&& w["StreamAwbId"@] == ValueModel::U16(0xFFFF)
}

/// The names of the cues of a music sheet are read, row by row.
proof fn names_found(name: Seq<char>, c: MusicModel, i: int)
    requires
        fits(music_cue_name_table(name, c)),
        0 <= i < c.cue_count(),
        forall|k: int| 0 <= k < c.cue_count() ==> unbroken(#[trigger] c.cue_names(name)[k]),
    ensures
        table_sound(music_cue_name_table(name, c)),
        table_back(music_cue_name_table(name, c)).rows[i]["CueName"@] == ValueModel::String(
            text_back(c.cue_names(name)[i]),
        ),
        table_back(music_cue_name_table(name, c)).rows[i]["CueIndex"@] == ValueModel::U16(i as u16),
{
    let t = music_cue_name_table(name, c);
    reveal_strlit("CueName");
    reveal_strlit("CueIndex");
    assert("CueName"@.len() == 7 && "CueIndex"@.len() == 8);
    assert(t.columns.len() == 2);
    assert(t.columns[0] == ColumnDefModel::by_row("CueName"@, COLUMN_TYPE_STRING));
    assert(t.columns[1] == ColumnDefModel::by_row("CueIndex"@, COLUMN_TYPE_2BYTE));
    assert forall|j: int| 0 <= j < t.rows.len() implies columns_named(t.columns, #[trigger] t.rows[j]) by {
        assert(unbroken(c.cue_names(name)[j]));
        assert(t.rows[j]["CueName"@] == ValueModel::String(c.cue_names(name)[j]));
        assert(t.rows[j]["CueIndex"@] == ValueModel::U16(j as u16));
    }
    named_sound(t);
    let row = t.rows[i];
    stored_found(t, row, 0, 2);
    stored_found(t, row, 1, 2);
}

/// The data that the archive inside a sheet holds under an id.
#[verifier::opaque]
pub open spec fn embedded_file(m: AcbModel, id: int) -> Option<Seq<u8>> {
    match acb_archive(m.acb_bytes(), 0) {
        Ok(Some(a)) => match a.file(id as i32) {
            Ok(d) => Some(d),
            Err(_) => None,
        },
        _ => None,
    }
}

proof fn music_file_read(m: AcbModel)
    requires
        m.music is Some,
        m.error() is None,
        m.fits(),
        texts_unbroken(m),
    ensures
        embedded_file(m, m.music->Some_0.memory_awb_id as int) == Some(m.tracks[0].data),
{
    reveal(embedded_file);
    sheet_reads_back(m, 0);
}

/// A music sheet is read, and its row is that of its table.
proof fn music_opens(m: AcbModel)
    requires
        m.music is Some,
        m.fits(),
        texts_unbroken(m),
    ensures
        sheet_reads(m),
        sheet_row(m) == table_back(m.sheet()).rows[0],
{
    reveal(sheet_reads);
    reveal(sheet_row);
    sheet_sound(m);
    build_then_parse(m.sheet());
    assert(m.sheet().rows.len() == 1) by {
        reveal(music_header_table);
    }
}

proof fn music_part_found(m: AcbModel, c: MusicModel, key: Seq<char>, t: TableModel)
    requires
        m.music == Some(c),
        m.fits(),
        texts_unbroken(m),
        walk_name(key),
        value_named(key, told_of(m.tracks[0], c)) == Some(ValueModel::Data(table_bytes(t))),
        table_sound(t),
    ensures
        music_reads(sheet_row(m), key, t),
{
    music_opens(m);
    music_table_read(m.tracks[0], c, key);
    held_table_reads(sheet_row(m), key, t);
}

/// What the walk from a cue of a music sheet meets first.
proof fn music_walk_goes(m: AcbModel, c: MusicModel, i: int)
    requires
        m.music == Some(c),
        m.fits(),
        texts_unbroken(m),
        0 <= i < c.cue_count(),
    ensures
        ({
            let s = sheet_row(m);
            &&& table_in(s, "CueTable"@).rows.len() == c.cue_count()
            &&& cue_of(s, i)["CueId"@] == ValueModel::U32(cue_at(c.cue_id, i))
            &&& cue_of(s, i)["ReferenceType"@] == ValueModel::U8(3)
            &&& sequence_of(s, i)["NumTracks"@] == ValueModel::U16(1)
            &&& command_of(s, i) == synth_command(i as u16)
        }),
{
    reveal(music_reads);
    let track = m.tracks[0];
    let info = music_info(track, c);
    reveal_strlit("CueTable");
    reveal_strlit("SequenceTable");
    reveal_strlit("TrackTable");
    reveal_strlit("TrackEventTable");
    cue_found(info, c, i);
    sequence_found(c, i);
    track_found(c, i);
    event_found(c, i);
    music_part_found(m, c, "CueTable"@, music_cue_table(info, c));
    music_part_found(m, c, "SequenceTable"@, music_sequence_table(c));
    music_part_found(m, c, "TrackTable"@, music_track_table(c));
    music_part_found(m, c, "TrackEventTable"@, music_track_event_table(c));
    assert(pair_at(be16(i as u16), 0) == i);
}

proof fn music_walk_ends(m: AcbModel, c: MusicModel, i: int)
    requires
        m.music == Some(c),
        m.fits(),
        texts_unbroken(m),
        0 <= i < c.cue_count(),
    ensures
        bytes_in(synth_of(sheet_row(m), i), "ReferenceItems"@) == be16(1) + be16(0),
        music_waveform_tells(
            waveform_of(sheet_row(m), i),
            m.tracks[0].encode_type,
            music_info(m.tracks[0], c),
            c,
        ),
{
    let track = m.tracks[0];
    let info = music_info(track, c);
    let s = sheet_row(m);
    music_walk_goes(m, c, i);
    reveal_strlit("SynthTable");
    reveal_strlit("WaveformTable");
    synth_found(c, i);
    waveform_found(track.encode_type, info, c);
    music_part_found(m, c, "SynthTable"@, music_synth_table(c));
    music_part_found(
        m,
        c,
        "WaveformTable"@,
        music_waveform_table(track.encode_type, info, c),
    );
    assert(table_in(s, "SynthTable"@) == table_back(music_synth_table(c))) by {
        reveal(music_reads);
    }
    assert(table_in(s, "WaveformTable"@) == table_back(
        music_waveform_table(track.encode_type, info, c),
    )) by {
        reveal(music_reads);
    }
    assert(pair_at(synth_command(i as u16), 5) == i);
    assert(pair_at(be16(1) + be16(0), 2) == 0);
}

/// Every cue of a built music sheet, the virtual one too, plays the sheet's one
/// track. The cues have ids that follow each other; each refers to a sequence
/// of one track, which runs a command that starts a synth, which plays the
/// waveform. The waveform's id names the track's data in the archive inside
/// the sheet.
pub proof fn music_cue_plays_its_track(m: AcbModel, i: int)
    requires
        m.music is Some,
        m.error() is None,
        m.fits(),
        texts_unbroken(m),
        0 <= i < m.music->Some_0.cue_count(),
    ensures
        ({
            let s = sheet_row(m);
            let c = m.music->Some_0;
            let command = command_of(s, i);
            let items = bytes_in(synth_of(s, i), "ReferenceItems"@);
            let w = waveform_of(s, i);
            &&& sheet_reads(m)
            &&& table_in(s, "CueTable"@).rows.len() == if c.virtual_cue_suffix is Some {
                2int
            } else {
                1int
            }
            &&& cue_of(s, i)["CueId"@] is U32
            &&& cue_of(s, i)["CueId"@]->U32_0 == c.cue_id + i
            &&& cue_of(s, i)["ReferenceType"@] == ValueModel::U8(3)
            &&& sequence_of(s, i)["NumTracks"@] == ValueModel::U16(1)
            &&& pair_at(command, 0) == 2000 && command[2] == 4 && pair_at(command, 3) == 2
            &&& pair_at(items, 0) == 1
            &&& music_waveform_tells(w, m.tracks[0].encode_type, music_info(m.tracks[0], c), c)
            &&& embedded_file(m, number_in(w, "MemoryAwbId"@)) == Some(m.tracks[0].data)
        }),
{
    let c = m.music->Some_0;
    music_opens(m);
    music_walk_goes(m, c, i);
    music_walk_ends(m, c, i);
    music_file_read(m);
    assert(pair_at(be16(1) + be16(0), 0) == 1);
    assert(pair_at(synth_command(i as u16), 0) == 2000);
    assert(pair_at(synth_command(i as u16), 3) == 2);
    assert(synth_command(i as u16)[2] == 4);
}

/// The first cue of a built music sheet has the name of its track, and the
/// virtual one that name with the suffix behind it, where these are plain.
pub proof fn music_cues_have_names(m: AcbModel, i: int)
    requires
        m.music is Some,
        m.error() is None,
        m.fits(),
        texts_unbroken(m),
        plain(m.tracks[0].name),
        m.music->Some_0.virtual_cue_suffix is Some ==> plain(
            m.music->Some_0.virtual_cue_suffix->Some_0,
        ),
        0 <= i < m.music->Some_0.cue_count(),
    ensures
        ({
            let row = table_in(sheet_row(m), "CueNameTable"@).rows[i];
            let name = m.tracks[0].name;
            &&& row["CueName"@] == ValueModel::String(
                if i == 0 { name } else { name + m.music->Some_0.virtual_cue_suffix->Some_0 },
            )
            &&& number_in(row, "CueIndex"@) == i
        }),
{
    let c = m.music->Some_0;
    let name = m.tracks[0].name;
    reveal_strlit("CueNameTable");
    assert forall|k: int| 0 <= k < c.cue_count() implies unbroken(#[trigger] c.cue_names(name)[k])
        && text_back(c.cue_names(name)[k]) == c.cue_names(name)[k] by {
        assert(plain(c.cue_names(name)[k]));
        plain_comes_back(c.cue_names(name)[k]);
    }
    names_found(name, c, i);
    music_part_found(m, c, "CueNameTable"@, music_cue_name_table(name, c));
    reveal(music_reads);
}

/// What the row of a music sheet says of the sheet itself: the version and
/// volume, the hash and id, the text of the version, the name of the track,
/// and how its cues are ranked and sorted.
pub proof fn music_sheet_tells(m: AcbModel)
    requires
        m.music is Some,
        m.fits(),
        texts_unbroken(m),
    ensures
        ({
            let s = sheet_row(m);
            let c = m.music->Some_0;
            &&& sheet_reads(m)
            &&& s["Version"@] == ValueModel::U32(c.acb_version)
            &&& s["AcbVolume"@] == ValueModel::F32(c.acb_volume)
            &&& s["AcfMd5Hash"@] == ValueModel::Data(c.acf_md5_hash)
            &&& s["AcbGuid"@] == ValueModel::Data(c.acb_guid)
            &&& s["CategoryExtension"@] == ValueModel::U8(c.category_extension)
            &&& s["CuePriorityType"@] == ValueModel::U8(c.cue_priority_type)
            &&& plain(c.version_string) ==> s["VersionString"@] == ValueModel::String(
                c.version_string,
            )
            &&& plain(m.tracks[0].name) ==> s["Name"@] == ValueModel::String(m.tracks[0].name)
        }),
{
    let c = m.music->Some_0;
    let track = m.tracks[0];
    reveal_strlit("Version");
    reveal_strlit("AcbVolume");
    reveal_strlit("AcfMd5Hash");
    reveal_strlit("AcbGuid");
    reveal_strlit("CategoryExtension");
    reveal_strlit("CuePriorityType");
    reveal_strlit("VersionString");
    reveal_strlit("Name");
    music_opens(m);
    music_table_read(track, c, "Version"@);
    music_table_read(track, c, "AcbVolume"@);
    music_table_read(track, c, "AcfMd5Hash"@);
    music_table_read(track, c, "AcbGuid"@);
    music_table_read(track, c, "CategoryExtension"@);
    music_table_read(track, c, "CuePriorityType"@);
    music_table_read(track, c, "VersionString"@);
    music_table_read(track, c, "Name"@);
    if plain(c.version_string) {
        plain_comes_back(c.version_string);
    }
    if plain(track.name) {
        plain_comes_back(track.name);
    }
}

proof fn buses_found(c: MusicModel, i: int)
    requires
        fits(music_string_value_table(c)),
        0 <= i < c.acf_bus_names.len() < u32::MAX,
        forall|k: int| 0 <= k < c.acf_bus_names.len() ==> plain(#[trigger] c.acf_bus_names[k]),
    ensures
        table_sound(music_string_value_table(c)),
        table_back(music_string_value_table(c)).rows[i]["StringValue"@] == ValueModel::String(
            c.acf_bus_names[i],
        ),
{
    let t = music_string_value_table(c);
    reveal_strlit("Strings");
    reveal_strlit("StringValue");
    assert(t.columns.len() == 1);
    assert(t.columns[0] == ColumnDefModel::by_row("StringValue"@, COLUMN_TYPE_STRING));
    assert forall|j: int| 0 <= j < t.rows.len() implies columns_named(t.columns, #[trigger] t.rows[j]) by {
        assert(plain(c.acf_bus_names[j]));
        plain_comes_back(c.acf_bus_names[j]);
        assert(t.rows[j]["StringValue"@] == ValueModel::String(c.acf_bus_names[j]));
    }
    named_sound(t);
    plain_comes_back(c.acf_bus_names[i]);
    stored_found(t, t.rows[i], 0, 1);
}

proof fn references_found(c: MusicModel, i: int)
    requires
        fits(music_acf_reference_table(c)),
        0 <= i <= c.acf_bus_names.len() < u32::MAX,
        plain(c.acf_category_name),
        forall|k: int| 0 <= k < c.acf_bus_names.len() ==> plain(#[trigger] c.acf_bus_names[k]),
    ensures
        table_sound(music_acf_reference_table(c)),
        reference_told(table_back(music_acf_reference_table(c)).rows[i], c, i),
{
    let t = music_acf_reference_table(c);
    reveal_strlit("AcfReference");
    reveal_strlit("Type");
    reveal_strlit("Name");
    reveal_strlit("Name2");
    reveal_strlit("Id");
    assert("Type"@.len() == 4 && "Name"@.len() == 4 && "Name2"@.len() == 5 && "Id"@.len() == 2);
    assert("Type"@[0] != "Name"@[0]);
    assert(t.columns.len() == 4);
    assert(t.columns[0] == ColumnDefModel::by_row("Type"@, COLUMN_TYPE_1BYTE));
    assert(t.columns[1] == ColumnDefModel::by_row("Name"@, COLUMN_TYPE_STRING));
    assert(t.columns[2] == ColumnDefModel::fixed("Name2"@, ValueModel::String(Seq::empty())));
    assert(t.columns[3] == ColumnDefModel::by_row("Id"@, COLUMN_TYPE_4BYTE));
    assert forall|j: int| 0 <= j < t.rows.len() implies columns_named(t.columns, #[trigger] t.rows[j]) by {
        let name = if j == 0 { c.acf_category_name } else { c.acf_bus_names[j - 1] };
        assert(plain(name));
        plain_comes_back(name);
        let row = t.rows[j];
        assert(row["Name"@] == ValueModel::String(name));
        assert(row["Type"@] is U8);
        assert(row["Id"@] is U32);
    }
    named_sound(t);
    let name = if i == 0 { c.acf_category_name } else { c.acf_bus_names[i - 1] };
    assert(plain(name));
    plain_comes_back(name);
    let row = t.rows[i];
    stored_found(t, row, 0, 4);
    stored_found(t, row, 1, 4);
    stored_found(t, row, 3, 4);
}

/// Whether a row refers to the category, the first one, or to a bus.
pub open spec fn reference_told(row: Row, c: MusicModel, i: int) -> bool {
    if i == 0 {
        &&& row["Type"@] == ValueModel::U8(3)
        &&& row["Name"@] == ValueModel::String(c.acf_category_name)
        &&& row["Id"@] == ValueModel::U32(c.acf_category_id)
    } else {
        &&& row["Type"@] == ValueModel::U8(9)
        &&& row["Name"@] == ValueModel::String(c.acf_bus_names[i - 1])
        &&& row["Id"@] == ValueModel::U32(0xFFFF_FFFF)
    }
}

/// A music sheet refers to its category, by name and id, and then to its
/// buses, whose names it also lists, where these texts are plain.
pub proof fn music_sheet_refers(m: AcbModel, i: int)
    requires
        m.music is Some,
        m.fits(),
        texts_unbroken(m),
        0 <= i <= m.music->Some_0.acf_bus_names.len() < u32::MAX,
        plain(m.music->Some_0.acf_category_name),
        forall|k: int|
            0 <= k < m.music->Some_0.acf_bus_names.len() ==> plain(
                #[trigger] m.music->Some_0.acf_bus_names[k],
            ),
    ensures
        ({
            let s = sheet_row(m);
            let c = m.music->Some_0;
            &&& table_in(s, "AcfReferenceTable"@).rows.len() == c.acf_bus_names.len() + 1
            &&& reference_told(table_in(s, "AcfReferenceTable"@).rows[i], c, i)
            &&& i > 0 ==> table_in(s, "StringValueTable"@).rows[i - 1]["StringValue"@]
                == ValueModel::String(c.acf_bus_names[i - 1])
        }),
{
    let c = m.music->Some_0;
    reveal_strlit("AcfReferenceTable");
    reveal_strlit("StringValueTable");
    references_found(c, i);
    music_part_found(m, c, "AcfReferenceTable"@, music_acf_reference_table(c));
    reveal(music_reads);
    if i > 0 {
        buses_found(c, i - 1);
        music_part_found(m, c, "StringValueTable"@, music_string_value_table(c));
    }
}

/// Whether a command of four bytes stands in a list of such commands.
pub open spec fn command_at(b: Seq<u8>, k: int, code: int, high: int, low: int) -> bool {
    let at = 7 * k;
    &&& pair_at(b, at) == code
    &&& b[at + 2] == 4
    &&& pair_at(b, at + 3) == high
    &&& pair_at(b, at + 5) == low
}

proof fn commands_found(c: MusicModel, i: int)
    requires
        fits(music_seq_command_table(c)),
        0 <= i < c.cue_count(),
    ensures
        table_sound(music_seq_command_table(c)),
        table_back(music_seq_command_table(c)).rows[i]["Command"@] == ValueModel::Data(
            sequence_command(i),
        ),
{
    let t = music_seq_command_table(c);
    reveal_strlit("SequenceCommand");
    reveal_strlit("Command");
    assert(t.columns.len() == 1);
    assert(t.columns[0] == ColumnDefModel::by_row("Command"@, COLUMN_TYPE_DATA));
    assert forall|j: int| 0 <= j < t.rows.len() implies columns_named(t.columns, #[trigger] t.rows[j]) by {
        assert(t.rows[j]["Command"@] is Data);
    }
    named_sound(t);
    stored_found(t, t.rows[i], 0, 1);
}

/// The commands of the sequences of a music sheet: the first cue is sent to
/// its first bus in full, and the virtual one to the first bus at nine tenths
/// and to the second and fourth at half.
pub proof fn music_sequences_run(m: AcbModel, i: int)
    requires
        m.music is Some,
        m.fits(),
        texts_unbroken(m),
        0 <= i < m.music->Some_0.cue_count(),
    ensures
        ({
            let b = bytes_in(table_in(sheet_row(m), "SeqCommandTable"@).rows[i], "Command"@);
            sends_to_buses(b, i)
        }),
{
    commands_read(m, i);
    commands_send(i);
}

/// Whether commands send a cue to its buses.
pub open spec fn sends_to_buses(b: Seq<u8>, i: int) -> bool {
    &&& b.len() == if i == 0 { 21int } else { 35int }
    &&& command_at(b, 0, 0x41, 0, 5)
    &&& command_at(b, 1, 0x45, 0x41F0, 0)
    &&& command_at(b, 2, 0x6F, 0, if i == 0 { 10_000 } else { 9_000 })
    &&& i > 0 ==> command_at(b, 3, 0x6F, 1, 5_000)
    &&& i > 0 ==> command_at(b, 4, 0x6F, 3, 5_000)
}

proof fn commands_send(i: int)
    requires
        0 <= i,
    ensures
        sends_to_buses(sequence_command(i), i),
{
}

proof fn commands_read(m: AcbModel, i: int)
    requires
        m.music is Some,
        m.fits(),
        texts_unbroken(m),
        0 <= i < m.music->Some_0.cue_count(),
    ensures
        bytes_in(table_in(sheet_row(m), "SeqCommandTable"@).rows[i], "Command"@)
            == sequence_command(i),
{
    let c = m.music->Some_0;
    reveal_strlit("SeqCommandTable");
    commands_found(c, i);
    music_part_found(m, c, "SeqCommandTable"@, music_seq_command_table(c));
    reveal(music_reads);
}

} // verus!
