//! What the tables of an ACB cue sheet hold.

use vstd::prelude::*;
use crate::acb::afs::{AfsFile, AfsModel};
use crate::acb::builder::{fits, table_bytes, BuilderError, ColumnDefModel, TableModel};
use crate::acb::consts::{
    COLUMN_TYPE_1BYTE, COLUMN_TYPE_2BYTE, COLUMN_TYPE_4BYTE, COLUMN_TYPE_DATA, COLUMN_TYPE_FLOAT,
    COLUMN_TYPE_STRING, WAVEFORM_ENCODE_TYPE_ADX, WAVEFORM_ENCODE_TYPE_HCA,
};
use crate::acb::utf::{no_entries, wrap32, ValueModel};
use crate::bytes::{be16, u32_be, zeros};

verus! {

/// What a track to be packed holds.
pub struct TrackModel {
    pub name: Seq<char>,
    pub cue_id: u32,
    pub data: Seq<u8>,
    pub encode_type: i32,
}

/// The encoding that the first bytes of a waveform show: ADX by its marker,
/// HCA otherwise.
pub open spec fn encoding_of(d: Seq<u8>) -> i32 {
    if d.len() >= 4 && ((d[0] == 0x80 && d[1] == 0) || (d[0] == 0 && d[1] == 0 && d[2] == 0 && d[3]
        == 0x80)) {
        WAVEFORM_ENCODE_TYPE_ADX
    } else {
        WAVEFORM_ENCODE_TYPE_HCA
    }
}

/// What a cue sheet says of a waveform.
#[derive(Debug, Clone, Copy, PartialEq, Eq, Structural)]
pub struct HcaTrackInfo {
    pub channels: u8,
    pub sampling_rate: u16,
    pub num_samples: u32,
    pub length_ms: u32,
}

/// Where the letters `fmt` and a zero byte first stand, from `from` on.
pub open spec fn fmt_at(d: Seq<u8>, from: nat) -> Option<nat>
    decreases d.len() - from,
{
    if from + 4 > d.len() {
        None
    } else if d.subrange(from as int, (from + 4) as int) == seq![0x66u8, 0x6d, 0x74, 0] {
        Some(from)
    } else {
        fmt_at(d, from + 1)
    }
}

/// What is said of a waveform whose header tells nothing.
pub open spec fn reference_info(num_samples: u32, length_ms: u32) -> HcaTrackInfo {
    HcaTrackInfo { channels: 2, sampling_rate: 44_100, num_samples, length_ms }
}

/// What the format chunk of a waveform says, unless it is missing, empty, or
/// not shorter than the reference.
pub open spec fn track_info(
    d: Seq<u8>,
    reference_num_samples: u32,
    reference_length_ms: u32,
) -> HcaTrackInfo {
    let reference = reference_info(reference_num_samples, reference_length_ms);
    match fmt_at(d, 0) {
        None => reference,
        Some(p) => if p + 12 > d.len() {
            reference
        } else {
            let o = p as int;
            let channels = d[o + 4];
            let rate = d[o + 5] * 0x1_0000 + d[o + 6] * 0x100 + d[o + 7];
            let frames = u32_be(d.subrange(o + 8, o + 12));
            let samples: int = if frames * 1024 <= u32::MAX { frames * 1024 } else { u32::MAX as int };
            let ms = wrap32(samples * 1000 / rate);
            if rate == 0 || frames == 0 || ms >= reference_length_ms {
                reference
            } else {
                HcaTrackInfo {
                    channels: if channels == 0 { 1 } else { channels },
                    sampling_rate: if rate <= 0xFFFF { rate as u16 } else { 0xFFFF },
                    num_samples: samples as u32,
                    length_ms: if ms == 0 { reference_length_ms } else { ms },
                }
            }
        },
    }
}

/// Options of a single-track music cue sheet. The volume is the bit pattern
/// of a single-precision number.
pub struct MusicModel {
    pub cue_id: u32,
    pub memory_awb_id: u16,
    pub virtual_cue_suffix: Option<Seq<char>>,
    pub reference_num_samples: u32,
    pub reference_length_ms: u32,
    pub acb_version: u32,
    pub acf_md5_hash: Seq<u8>,
    pub acb_guid: Seq<u8>,
    pub version_string: Seq<char>,
    pub acb_volume: u32,
    pub category_extension: u8,
    pub cue_priority_type: u8,
    pub acf_category_name: Seq<char>,
    pub acf_category_id: u32,
    pub acf_bus_names: Seq<Seq<char>>,
}

impl MusicModel {
    /// One cue, and a virtual one where a suffix is given.
    pub open spec fn cue_count(self) -> nat {
        if self.virtual_cue_suffix is Some { 2 } else { 1 }
    }

    /// The names of the cues.
    pub open spec fn cue_names(self, name: Seq<char>) -> Seq<Seq<char>> {
        match self.virtual_cue_suffix {
            Some(suffix) => seq![name, name + suffix],
            None => seq![name],
        }
    }

    /// The id of the last cue, within 32 bits.
    pub open spec fn last_cue(self) -> u32 {
        let end = self.cue_id + self.cue_count();
        if end <= u32::MAX { (end - 1) as u32 } else { (u32::MAX - 1) as u32 }
    }
}

/// The id of cue `i`, within 32 bits.
pub open spec fn cue_at(first: u32, i: int) -> u32 {
    if first + i <= u32::MAX { (first + i) as u32 } else { u32::MAX }
}

/// The command that starts a synth.
pub open spec fn synth_command(synth: u16) -> Seq<u8> {
    be16(0x07d0) + seq![4u8] + be16(2) + be16(synth) + be16(0) + seq![0u8]
}

/// The command of sequence `i` of a music sheet.
pub open spec fn sequence_command(i: int) -> Seq<u8> {
    if i == 0 {
        seq![
            0x00u8, 0x41, 0x04, 0x00, 0x00, 0x00, 0x05, 0x00, 0x45, 0x04, 0x41, 0xf0, 0x00, 0x00,
            0x00, 0x6f, 0x04, 0x00, 0x00, 0x27, 0x10,
        ]
    } else {
        seq![
            0x00u8, 0x41, 0x04, 0x00, 0x00, 0x00, 0x05, 0x00, 0x45, 0x04, 0x41, 0xf0, 0x00, 0x00,
            0x00, 0x6f, 0x04, 0x00, 0x00, 0x23, 0x28, 0x00, 0x6f, 0x04, 0x00, 0x01, 0x13, 0x88,
            0x00, 0x6f, 0x04, 0x00, 0x03, 0x13, 0x88,
        ]
    }
}

/// A table as a music sheet embeds it.
pub open spec fn nested(t: TableModel) -> TableModel {
    TableModel { encoding: 1, data_offset_alignment: 1, table_alignment: 4, ..t }
}

/// The columns of the cue table.
pub open spec fn cue_columns() -> TableModel {
    TableModel::named("CueTable"@)
        .column(ColumnDefModel::by_row("CueId"@, COLUMN_TYPE_4BYTE))
        .column(ColumnDefModel::by_row("ReferenceType"@, COLUMN_TYPE_1BYTE))
        .column(ColumnDefModel::by_row("ReferenceIndex"@, COLUMN_TYPE_2BYTE))
}

/// Row `i` of the cue table.
pub open spec fn cue_row(t: TrackModel, i: int) -> Map<Seq<char>, ValueModel> {
    no_entries()
        .insert("CueId"@, ValueModel::U32(t.cue_id))
        .insert("ReferenceType"@, ValueModel::U8(3))
        .insert("ReferenceIndex"@, ValueModel::U16((i % 0x1_0000) as u16))
}

/// The cue table: cue `i` plays sequence `i`.
pub open spec fn cue_table(tracks: Seq<TrackModel>) -> TableModel {
    TableModel {
        rows: Seq::new(tracks.len(), |i: int| cue_row(tracks[i], i)),
        ..cue_columns()
    }
}

/// The columns of the cue name table.
pub open spec fn cue_name_columns() -> TableModel {
    TableModel::named("CueNameTable"@)
        .column(ColumnDefModel::by_row("CueIndex"@, COLUMN_TYPE_2BYTE))
        .column(ColumnDefModel::by_row("CueName"@, COLUMN_TYPE_STRING))
}

/// Row `i` of the cue name table.
pub open spec fn cue_name_row(t: TrackModel, i: int) -> Map<Seq<char>, ValueModel> {
    no_entries()
        .insert("CueIndex"@, ValueModel::U16((i % 0x1_0000) as u16))
        .insert("CueName"@, ValueModel::String(t.name))
}

/// The cue name table: cue `i` has the name of track `i`.
pub open spec fn cue_name_table(tracks: Seq<TrackModel>) -> TableModel {
    TableModel {
        rows: Seq::new(tracks.len(), |i: int| cue_name_row(tracks[i], i)),
        ..cue_name_columns()
    }
}

/// The columns of the sequence table.
pub open spec fn sequence_columns() -> TableModel {
    TableModel::named("SequenceTable"@)
        .column(ColumnDefModel::by_row("Type"@, COLUMN_TYPE_1BYTE))
        .column(ColumnDefModel::by_row("NumTracks"@, COLUMN_TYPE_2BYTE))
        .column(ColumnDefModel::by_row("TrackIndex"@, COLUMN_TYPE_DATA))
}

/// Row `i` of the sequence table.
pub open spec fn sequence_row(t: TrackModel, i: int) -> Map<Seq<char>, ValueModel> {
    no_entries()
        .insert("Type"@, ValueModel::U8(0))
        .insert("NumTracks"@, ValueModel::U16(1))
        .insert("TrackIndex"@, ValueModel::Data(be16((i % 0x1_0000) as u16)))
}

/// The sequence table: sequence `i` plays track `i`.
pub open spec fn sequence_table(tracks: Seq<TrackModel>) -> TableModel {
    TableModel {
        rows: Seq::new(tracks.len(), |i: int| sequence_row(tracks[i], i)),
        ..sequence_columns()
    }
}

/// The columns of the track table.
pub open spec fn track_columns() -> TableModel {
    TableModel::named("TrackTable"@)
        .column(ColumnDefModel::by_row("EventIndex"@, COLUMN_TYPE_2BYTE))
}

/// Row `i` of the track table.
pub open spec fn track_row(t: TrackModel, i: int) -> Map<Seq<char>, ValueModel> {
    no_entries()
        .insert("EventIndex"@, ValueModel::U16((i % 0x1_0000) as u16))
}

/// The track table: track `i` runs event `i`.
pub open spec fn track_table(tracks: Seq<TrackModel>) -> TableModel {
    TableModel {
        rows: Seq::new(tracks.len(), |i: int| track_row(tracks[i], i)),
        ..track_columns()
    }
}

/// The columns of the track event table.
pub open spec fn track_event_columns() -> TableModel {
    TableModel::named("TrackEventTable"@)
        .column(ColumnDefModel::by_row("Command"@, COLUMN_TYPE_DATA))
}

/// Row `i` of the track event table.
pub open spec fn track_event_row(t: TrackModel, i: int) -> Map<Seq<char>, ValueModel> {
    no_entries()
        .insert("Command"@, ValueModel::Data(synth_command((i % 0x1_0000) as u16)))
}

/// The event table: event `i` starts synth `i`.
pub open spec fn track_event_table(tracks: Seq<TrackModel>) -> TableModel {
    TableModel {
        rows: Seq::new(tracks.len(), |i: int| track_event_row(tracks[i], i)),
        ..track_event_columns()
    }
}

/// The columns of the waveform table.
pub open spec fn waveform_columns() -> TableModel {
    TableModel::named("WaveformTable"@)
        .column(ColumnDefModel::by_row("Id"@, COLUMN_TYPE_2BYTE))
        .column(ColumnDefModel::by_row("EncodeType"@, COLUMN_TYPE_1BYTE))
        .column(ColumnDefModel::by_row("Streaming"@, COLUMN_TYPE_1BYTE))
        .column(ColumnDefModel::by_row("MemoryAwbId"@, COLUMN_TYPE_2BYTE))
        .column(ColumnDefModel::by_row("StreamAwbId"@, COLUMN_TYPE_2BYTE))
        .column(ColumnDefModel::by_row("StreamAwbPortNo"@, COLUMN_TYPE_2BYTE))
}

/// Row `i` of the waveform table.
pub open spec fn waveform_row(t: TrackModel, i: int, streaming: bool) -> Map<Seq<char>, ValueModel> {
    no_entries()
        .insert("Id"@, ValueModel::U16((t.cue_id % 0x1_0000) as u16))
        .insert("EncodeType"@, ValueModel::U8((t.encode_type as int % 0x100) as u8))
        .insert("Streaming"@, ValueModel::U8(if streaming { 1 } else { 0 }))
        .insert("MemoryAwbId"@, ValueModel::U16(if streaming { 0xFFFF } else { (t.cue_id % 0x1_0000) as u16 }))
        .insert("StreamAwbId"@, ValueModel::U16(if streaming { (t.cue_id % 0x1_0000) as u16 } else { 0xFFFF }))
        .insert("StreamAwbPortNo"@, ValueModel::U16(if streaming { 0 } else { 0xFFFF }))
}

/// The waveform table: waveform `i` has the id of cue `i`, in the embedded or in
/// the external archive.
pub open spec fn waveform_table(tracks: Seq<TrackModel>, streaming: bool) -> TableModel {
    TableModel {
        rows: Seq::new(tracks.len(), |i: int| waveform_row(tracks[i], i, streaming)),
        ..waveform_columns()
    }
}

/// The columns of the synth table.
pub open spec fn synth_columns() -> TableModel {
    TableModel::named("SynthTable"@)
        .column(ColumnDefModel::by_row("Type"@, COLUMN_TYPE_1BYTE))
        .column(ColumnDefModel::by_row("VoiceLimitGroupName"@, COLUMN_TYPE_STRING))
        .column(ColumnDefModel::by_row("ReferenceItems"@, COLUMN_TYPE_DATA))
}

/// Row `i` of the synth table.
pub open spec fn synth_row(t: TrackModel, i: int) -> Map<Seq<char>, ValueModel> {
    no_entries()
        .insert("Type"@, ValueModel::U8(0))
        .insert("VoiceLimitGroupName"@, ValueModel::String(Seq::empty()))
        .insert("ReferenceItems"@, ValueModel::Data(be16(1) + be16((i % 0x1_0000) as u16)))
}

/// The synth table: synth `i` plays waveform `i`.
pub open spec fn synth_table(tracks: Seq<TrackModel>) -> TableModel {
    TableModel {
        rows: Seq::new(tracks.len(), |i: int| synth_row(tracks[i], i)),
        ..synth_columns()
    }
}

/// The columns of a music sheet's cue table.
pub open spec fn music_cue_columns(info: HcaTrackInfo) -> TableModel {
    TableModel::named("Cue"@)
        .column(ColumnDefModel::by_row("CueId"@, COLUMN_TYPE_4BYTE))
        .column(ColumnDefModel::fixed("ReferenceType"@, ValueModel::U8(3)))
        .column(ColumnDefModel::by_row("ReferenceIndex"@, COLUMN_TYPE_2BYTE))
        .column(ColumnDefModel::fixed("UserData"@, ValueModel::String(Seq::empty())))
        .column(ColumnDefModel::fixed("Worksize"@, ValueModel::U16(0)))
        .column(ColumnDefModel::fixed("AisacControlMap"@, ValueModel::Data(Seq::empty())))
        .column(ColumnDefModel::fixed("Length"@, ValueModel::U32(info.length_ms)))
        .column(ColumnDefModel::fixed("NumAisacControlMaps"@, ValueModel::U8(0)))
        .column(ColumnDefModel::fixed("HeaderVisibility"@, ValueModel::U8(1)))
        .column(ColumnDefModel::fixed("NumRelatedWaveforms"@, ValueModel::U16(1)))
}

/// Row `i` of a music sheet's cue table.
pub open spec fn music_cue_row(config: MusicModel, i: int) -> Map<Seq<char>, ValueModel> {
    no_entries()
        .insert("CueId"@, ValueModel::U32(cue_at(config.cue_id, i)))
        .insert("ReferenceIndex"@, ValueModel::U16(i as u16))
}

/// The cues of a music sheet.
pub open spec fn music_cue_table(info: HcaTrackInfo, config: MusicModel) -> TableModel {
    nested(
        TableModel {
            rows: Seq::new(config.cue_count(), |i: int| music_cue_row(config, i)),
            ..music_cue_columns(info)
        },
    )
}

/// The columns of a music sheet's synth table.
pub open spec fn music_synth_columns() -> TableModel {
    TableModel::named("Synth"@)
        .column(ColumnDefModel::fixed("Type"@, ValueModel::U8(0)))
        .column(ColumnDefModel::fixed("VoiceLimitGroupName"@, ValueModel::String(Seq::empty())))
        .column(ColumnDefModel::by_row("CommandIndex"@, COLUMN_TYPE_2BYTE))
        .column(ColumnDefModel::by_row("ReferenceItems"@, COLUMN_TYPE_DATA))
        .column(ColumnDefModel::fixed("LocalAisacs"@, ValueModel::Data(Seq::empty())))
        .column(ColumnDefModel::fixed("GlobalAisacStartIndex"@, ValueModel::U16(0xffff)))
        .column(ColumnDefModel::fixed("GlobalAisacNumRefs"@, ValueModel::U16(0)))
        .column(ColumnDefModel::by_row("ControlWorkArea1"@, COLUMN_TYPE_2BYTE))
        .column(ColumnDefModel::by_row("ControlWorkArea2"@, COLUMN_TYPE_2BYTE))
        .column(ColumnDefModel::fixed("TrackValues"@, ValueModel::Data(Seq::empty())))
        .column(ColumnDefModel::fixed("ParameterPallet"@, ValueModel::U16(0xffff)))
        .column(ColumnDefModel::fixed("ActionTrackStartIndex"@, ValueModel::U16(0xffff)))
        .column(ColumnDefModel::fixed("NumActionTracks"@, ValueModel::U16(0)))
}

/// Row `i` of a music sheet's synth table.
pub open spec fn music_synth_row(config: MusicModel, i: int) -> Map<Seq<char>, ValueModel> {
    no_entries()
        .insert("CommandIndex"@, ValueModel::U16(if i == 0 { 0xffff } else { 0 }))
        .insert("ReferenceItems"@, ValueModel::Data(be16(1) + be16(0)))
        .insert("ControlWorkArea1"@, ValueModel::U16(i as u16))
        .insert("ControlWorkArea2"@, ValueModel::U16(i as u16))
}

/// The synths of a music sheet.
pub open spec fn music_synth_table(config: MusicModel) -> TableModel {
    nested(
        TableModel {
            rows: Seq::new(config.cue_count(), |i: int| music_synth_row(config, i)),
            ..music_synth_columns()
        },
    )
}

/// The columns of a music sheet's seq command table.
pub open spec fn music_seq_command_columns() -> TableModel {
    TableModel::named("SequenceCommand"@)
        .column(ColumnDefModel::by_row("Command"@, COLUMN_TYPE_DATA))
}

/// Row `i` of a music sheet's seq command table.
pub open spec fn music_seq_command_row(config: MusicModel, i: int) -> Map<Seq<char>, ValueModel> {
    no_entries()
        .insert("Command"@, ValueModel::Data(sequence_command(i)))
}

/// The sequence commands of a music sheet.
pub open spec fn music_seq_command_table(config: MusicModel) -> TableModel {
    nested(
        TableModel {
            rows: Seq::new(config.cue_count(), |i: int| music_seq_command_row(config, i)),
            ..music_seq_command_columns()
        },
    )
}

/// The columns of a music sheet's track table.
pub open spec fn music_track_columns() -> TableModel {
    TableModel::named("Track"@)
        .column(ColumnDefModel::by_row("EventIndex"@, COLUMN_TYPE_2BYTE))
        .column(ColumnDefModel::fixed("CommandIndex"@, ValueModel::U16(0xffff)))
        .column(ColumnDefModel::fixed("LocalAisacs"@, ValueModel::Data(Seq::empty())))
        .column(ColumnDefModel::fixed("GlobalAisacStartIndex"@, ValueModel::U16(0xffff)))
        .column(ColumnDefModel::fixed("GlobalAisacNumRefs"@, ValueModel::U16(0)))
        .column(ColumnDefModel::fixed("ParameterPallet"@, ValueModel::U16(0xffff)))
        .column(ColumnDefModel::fixed("TargetType"@, ValueModel::U8(0)))
        .column(ColumnDefModel::fixed("TargetName"@, ValueModel::String(Seq::empty())))
        .column(ColumnDefModel::fixed("TargetId"@, ValueModel::U32(0xffff_ffff)))
        .column(ColumnDefModel::fixed("TargetAcbName"@, ValueModel::String(Seq::empty())))
        .column(ColumnDefModel::fixed("Scope"@, ValueModel::U8(0)))
        .column(ColumnDefModel::fixed("TargetTrackNo"@, ValueModel::U16(0xffff)))
}

/// Row `i` of a music sheet's track table.
pub open spec fn music_track_row(config: MusicModel, i: int) -> Map<Seq<char>, ValueModel> {
    no_entries()
        .insert("EventIndex"@, ValueModel::U16(i as u16))
}

/// The tracks of a music sheet.
pub open spec fn music_track_table(config: MusicModel) -> TableModel {
    nested(
        TableModel {
            rows: Seq::new(config.cue_count(), |i: int| music_track_row(config, i)),
            ..music_track_columns()
        },
    )
}

/// The columns of a music sheet's sequence table.
pub open spec fn music_sequence_columns() -> TableModel {
    TableModel::named("Sequence"@)
        .column(ColumnDefModel::fixed("PlaybackRatio"@, ValueModel::U16(100)))
        .column(ColumnDefModel::fixed("NumTracks"@, ValueModel::U16(1)))
        .column(ColumnDefModel::by_row("TrackIndex"@, COLUMN_TYPE_DATA))
        .column(ColumnDefModel::by_row("CommandIndex"@, COLUMN_TYPE_2BYTE))
        .column(ColumnDefModel::fixed("LocalAisacs"@, ValueModel::Data(Seq::empty())))
        .column(ColumnDefModel::fixed("GlobalAisacStartIndex"@, ValueModel::U16(0xffff)))
        .column(ColumnDefModel::fixed("GlobalAisacNumRefs"@, ValueModel::U16(0)))
        .column(ColumnDefModel::fixed("ParameterPallet"@, ValueModel::U16(0xffff)))
        .column(ColumnDefModel::fixed("ActionTrackStartIndex"@, ValueModel::U16(0xffff)))
        .column(ColumnDefModel::fixed("NumActionTracks"@, ValueModel::U16(0)))
        .column(ColumnDefModel::fixed("TrackValues"@, ValueModel::Data(Seq::empty())))
        .column(ColumnDefModel::fixed("Type"@, ValueModel::U8(0)))
        .column(ColumnDefModel::by_row("ControlWorkArea1"@, COLUMN_TYPE_2BYTE))
        .column(ColumnDefModel::by_row("ControlWorkArea2"@, COLUMN_TYPE_2BYTE))
        .column(ColumnDefModel::fixed("InstPluginTrackStartIndex"@, ValueModel::U16(0xffff)))
        .column(ColumnDefModel::fixed("NumInstPluginTracks"@, ValueModel::U16(0)))
}

/// Row `i` of a music sheet's sequence table.
pub open spec fn music_sequence_row(config: MusicModel, i: int) -> Map<Seq<char>, ValueModel> {
    no_entries()
        .insert("TrackIndex"@, ValueModel::Data(be16(i as u16)))
        .insert("CommandIndex"@, ValueModel::U16(i as u16))
        .insert("ControlWorkArea1"@, ValueModel::U16(i as u16))
        .insert("ControlWorkArea2"@, ValueModel::U16(i as u16))
}

/// The sequences of a music sheet.
pub open spec fn music_sequence_table(config: MusicModel) -> TableModel {
    nested(
        TableModel {
            rows: Seq::new(config.cue_count(), |i: int| music_sequence_row(config, i)),
            ..music_sequence_columns()
        },
    )
}

/// The columns of a music sheet's track event table.
pub open spec fn music_track_event_columns() -> TableModel {
    TableModel::named("TrackEvent"@)
        .column(ColumnDefModel::by_row("Command"@, COLUMN_TYPE_DATA))
}

/// Row `i` of a music sheet's track event table.
pub open spec fn music_track_event_row(config: MusicModel, i: int) -> Map<Seq<char>, ValueModel> {
    no_entries()
        .insert("Command"@, ValueModel::Data(synth_command(i as u16)))
}

/// The track events of a music sheet.
pub open spec fn music_track_event_table(config: MusicModel) -> TableModel {
    nested(
        TableModel {
            rows: Seq::new(config.cue_count(), |i: int| music_track_event_row(config, i)),
            ..music_track_event_columns()
        },
    )
}

/// The names of the cues of a music sheet.
pub open spec fn music_cue_name_table(name: Seq<char>, config: MusicModel) -> TableModel {
    nested(
        TableModel {
            rows: Seq::new(
                config.cue_count(),
                |i: int|
                    no_entries().insert(
                        "CueName"@,
                        ValueModel::String(config.cue_names(name)[i]),
                    ).insert("CueIndex"@, ValueModel::U16(i as u16)),
            ),
            ..TableModel::named("CueName"@).column(
                ColumnDefModel::by_row("CueName"@, COLUMN_TYPE_STRING),
            ).column(ColumnDefModel::by_row("CueIndex"@, COLUMN_TYPE_2BYTE))
        },
    )
}

/// The waveform of a music sheet.
pub open spec fn music_waveform_table(
    encode_type: i32,
    info: HcaTrackInfo,
    config: MusicModel,
) -> TableModel {
    let start = RowTable { table: TableModel::named("Waveform"@), row: no_entries() };
    nested(
        start
            .cell("MemoryAwbId"@, COLUMN_TYPE_2BYTE, ValueModel::U16(config.memory_awb_id))
            .cell("EncodeType"@, COLUMN_TYPE_1BYTE, ValueModel::U8((encode_type as int % 0x100) as u8))
            .cell("Streaming"@, COLUMN_TYPE_1BYTE, ValueModel::U8(0))
            .cell("NumChannels"@, COLUMN_TYPE_1BYTE, ValueModel::U8(info.channels))
            .cell("LoopFlag"@, COLUMN_TYPE_1BYTE, ValueModel::U8(1))
            .cell("SamplingRate"@, COLUMN_TYPE_2BYTE, ValueModel::U16(info.sampling_rate))
            .cell("NumSamples"@, COLUMN_TYPE_4BYTE, ValueModel::U32(info.num_samples))
            .cell("ExtensionData"@, COLUMN_TYPE_2BYTE, ValueModel::U16(0xffff))
            .cell("StreamAwbPortNo"@, COLUMN_TYPE_2BYTE, ValueModel::U16(0xffff))
            .cell("StreamAwbId"@, COLUMN_TYPE_2BYTE, ValueModel::U16(0xffff))
            .finished(),
    )
}

/// The bus names of a music sheet.
pub open spec fn music_string_value_table(config: MusicModel) -> TableModel {
    nested(
        TableModel {
            rows: Seq::new(
                config.acf_bus_names.len(),
                |i: int|
                    no_entries().insert("StringValue"@, ValueModel::String(config.acf_bus_names[i])),
            ),
            ..TableModel::named("Strings"@).column(
                ColumnDefModel::by_row("StringValue"@, COLUMN_TYPE_STRING),
            )
        },
    )
}

/// Row `i` of the references of a music sheet: the category, then each bus.
pub open spec fn music_acf_reference_row(config: MusicModel, i: int) -> Map<
    Seq<char>,
    ValueModel,
> {
    if i == 0 {
        no_entries().insert("Type"@, ValueModel::U8(3)).insert(
            "Name"@,
            ValueModel::String(config.acf_category_name),
        ).insert("Id"@, ValueModel::U32(config.acf_category_id))
    } else {
        no_entries().insert("Type"@, ValueModel::U8(9)).insert(
            "Name"@,
            ValueModel::String(config.acf_bus_names[i - 1]),
        ).insert("Id"@, ValueModel::U32(u32::MAX))
    }
}

/// The columns of the references of a music sheet.
pub open spec fn music_acf_reference_columns() -> TableModel {
    TableModel::named("AcfReference"@)
        .column(ColumnDefModel::by_row("Type"@, COLUMN_TYPE_1BYTE))
        .column(ColumnDefModel::by_row("Name"@, COLUMN_TYPE_STRING))
        .column(ColumnDefModel::fixed("Name2"@, ValueModel::String(Seq::empty())))
        .column(ColumnDefModel::by_row("Id"@, COLUMN_TYPE_4BYTE))
}

/// The references of a music sheet.
pub open spec fn music_acf_reference_table(config: MusicModel) -> TableModel {
    nested(
        TableModel {
            rows: Seq::new(
                config.acf_bus_names.len() + 1,
                |i: int| music_acf_reference_row(config, i),
            ),
            ..music_acf_reference_columns()
        },
    )
}

/// The synth command of a music sheet.
pub open spec fn music_synth_command_table() -> TableModel {
    nested(
        TableModel::named("SynthCommand"@).column(
            ColumnDefModel::by_row("Command"@, COLUMN_TYPE_DATA),
        ).row(
            no_entries().insert(
                "Command"@,
                ValueModel::Data(seq![0x00u8, 0x6f, 0x04, 0x00, 0x03, 0x13, 0x88]),
            ),
        ),
    )
}

/// A table under construction and the one row it will have.
pub struct RowTable {
    pub table: TableModel,
    pub row: Map<Seq<char>, ValueModel>,
}

impl RowTable {
    /// One more column, with its value in the row.
    pub open spec fn cell(self, name: Seq<char>, typ: u8, v: ValueModel) -> RowTable {
        RowTable {
            table: self.table.column(ColumnDefModel::by_row(name, typ)),
            row: self.row.insert(name, v),
        }
    }

    /// The table with its row.
    pub open spec fn finished(self) -> TableModel {
        self.table.row(self.row)
    }
}

/// The nested tables of a music sheet and its archive.
pub struct MusicParts {
    pub cue: Seq<u8>,
    pub cue_name: Seq<u8>,
    pub waveform: Seq<u8>,
    pub synth: Seq<u8>,
    pub seq_command: Seq<u8>,
    pub track: Seq<u8>,
    pub sequence: Seq<u8>,
    pub awb: Seq<u8>,
    pub string_value: Seq<u8>,
    pub acf_reference: Seq<u8>,
    pub synth_command: Seq<u8>,
    pub track_event: Seq<u8>,
}

/// The identity of a music sheet and its cue tables.
pub open spec fn music_opening(from: RowTable, config: MusicModel, parts: MusicParts) -> RowTable {
    from
        .cell("FileIdentifier"@, COLUMN_TYPE_4BYTE, ValueModel::U32(0))
        .cell("Size"@, COLUMN_TYPE_4BYTE, ValueModel::U32(0))
        .cell("Version"@, COLUMN_TYPE_4BYTE, ValueModel::U32(config.acb_version))
        .cell("Type"@, COLUMN_TYPE_1BYTE, ValueModel::U8(0))
        .cell("Target"@, COLUMN_TYPE_1BYTE, ValueModel::U8(0))
        .cell("AcfMd5Hash"@, COLUMN_TYPE_DATA, ValueModel::Data(config.acf_md5_hash))
        .cell("CategoryExtension"@, COLUMN_TYPE_1BYTE, ValueModel::U8(config.category_extension))
        .cell("CueTable"@, COLUMN_TYPE_DATA, ValueModel::Data(parts.cue))
        .cell("CueNameTable"@, COLUMN_TYPE_DATA, ValueModel::Data(parts.cue_name))
        .cell("WaveformTable"@, COLUMN_TYPE_DATA, ValueModel::Data(parts.waveform))
        .cell("AisacTable"@, COLUMN_TYPE_DATA, ValueModel::Data(Seq::empty()))
        .cell("GraphTable"@, COLUMN_TYPE_DATA, ValueModel::Data(Seq::empty()))
        .cell("GlobalAisacReferenceTable"@, COLUMN_TYPE_DATA, ValueModel::Data(Seq::empty()))
        .cell("AisacNameTable"@, COLUMN_TYPE_DATA, ValueModel::Data(Seq::empty()))
}

/// The playback tables of a music sheet and its archive.
pub open spec fn music_playback(from: RowTable, config: MusicModel, parts: MusicParts) -> RowTable {
    from
        .cell("SynthTable"@, COLUMN_TYPE_DATA, ValueModel::Data(parts.synth))
        .cell("SeqCommandTable"@, COLUMN_TYPE_DATA, ValueModel::Data(parts.seq_command))
        .cell("TrackTable"@, COLUMN_TYPE_DATA, ValueModel::Data(parts.track))
        .cell("SequenceTable"@, COLUMN_TYPE_DATA, ValueModel::Data(parts.sequence))
        .cell("AisacControlNameTable"@, COLUMN_TYPE_DATA, ValueModel::Data(Seq::empty()))
        .cell("AutoModulationTable"@, COLUMN_TYPE_DATA, ValueModel::Data(Seq::empty()))
        .cell("StreamAwbTocWorkOld"@, COLUMN_TYPE_DATA, ValueModel::Data(Seq::empty()))
        .cell("AwbFile"@, COLUMN_TYPE_DATA, ValueModel::Data(parts.awb))
        .cell("VersionString"@, COLUMN_TYPE_STRING, ValueModel::String(config.version_string))
        .cell("CueLimitWorkTable"@, COLUMN_TYPE_DATA, ValueModel::Data(Seq::empty()))
        .cell("NumCueLimitListWorks"@, COLUMN_TYPE_2BYTE, ValueModel::U16(0))
        .cell("NumCueLimitNodeWorks"@, COLUMN_TYPE_2BYTE, ValueModel::U16(0))
        .cell("AcbGuid"@, COLUMN_TYPE_DATA, ValueModel::Data(config.acb_guid))
        .cell("StreamAwbHash"@, COLUMN_TYPE_DATA, ValueModel::Data(zeros(16)))
        .cell("StreamAwbTocWork_Old"@, COLUMN_TYPE_DATA, ValueModel::Data(Seq::empty()))
        .cell("AcbVolume"@, COLUMN_TYPE_FLOAT, ValueModel::F32(config.acb_volume))
}

/// The names and references of a music sheet.
pub open spec fn music_references(from: RowTable, config: MusicModel, parts: MusicParts, name: Seq<char>) -> RowTable {
    from
        .cell("StringValueTable"@, COLUMN_TYPE_DATA, ValueModel::Data(parts.string_value))
        .cell("OutsideLinkTable"@, COLUMN_TYPE_DATA, ValueModel::Data(Seq::empty()))
        .cell("BlockSequenceTable"@, COLUMN_TYPE_DATA, ValueModel::Data(Seq::empty()))
        .cell("BlockTable"@, COLUMN_TYPE_DATA, ValueModel::Data(Seq::empty()))
        .cell("Name"@, COLUMN_TYPE_STRING, ValueModel::String(name))
        .cell("CharacterEncodingType"@, COLUMN_TYPE_1BYTE, ValueModel::U8(0))
        .cell("EventTable"@, COLUMN_TYPE_DATA, ValueModel::Data(Seq::empty()))
        .cell("ActionTrackTable"@, COLUMN_TYPE_DATA, ValueModel::Data(Seq::empty()))
        .cell("AcfReferenceTable"@, COLUMN_TYPE_DATA, ValueModel::Data(parts.acf_reference))
        .cell("WaveformExtensionDataTable"@, COLUMN_TYPE_DATA, ValueModel::Data(Seq::empty()))
        .cell("BeatSyncInfoTable"@, COLUMN_TYPE_DATA, ValueModel::Data(Seq::empty()))
        .cell("CuePriorityType"@, COLUMN_TYPE_1BYTE, ValueModel::U8(config.cue_priority_type))
        .cell("NumCueLimit"@, COLUMN_TYPE_2BYTE, ValueModel::U16(0))
        .cell("TrackCommandTable"@, COLUMN_TYPE_DATA, ValueModel::Data(Seq::empty()))
        .cell("SynthCommandTable"@, COLUMN_TYPE_DATA, ValueModel::Data(parts.synth_command))
        .cell("TrackEventTable"@, COLUMN_TYPE_DATA, ValueModel::Data(parts.track_event))
}

/// The parameter tables of a music sheet and its reserved columns.
pub open spec fn music_closing(from: RowTable) -> RowTable {
    from
        .cell("SeqParameterPalletTable"@, COLUMN_TYPE_DATA, ValueModel::Data(Seq::empty()))
        .cell("TrackParameterPalletTable"@, COLUMN_TYPE_DATA, ValueModel::Data(Seq::empty()))
        .cell("SynthParameterPalletTable"@, COLUMN_TYPE_DATA, ValueModel::Data(Seq::empty()))
        .cell("SoundGeneratorTable"@, COLUMN_TYPE_DATA, ValueModel::Data(Seq::empty()))
        .cell("InstrumentPluginTrackTable"@, COLUMN_TYPE_DATA, ValueModel::Data(Seq::empty()))
        .cell("InstrumentPluginParameterTable"@, COLUMN_TYPE_DATA, ValueModel::Data(Seq::empty()))
        .cell("R8"@, COLUMN_TYPE_1BYTE, ValueModel::U8(0))
        .cell("ProjectKey"@, COLUMN_TYPE_DATA, ValueModel::Data(Seq::empty()))
        .cell("R6"@, COLUMN_TYPE_1BYTE, ValueModel::U8(0))
        .cell("R5"@, COLUMN_TYPE_1BYTE, ValueModel::U8(0))
        .cell("R4"@, COLUMN_TYPE_1BYTE, ValueModel::U8(0))
        .cell("R3"@, COLUMN_TYPE_1BYTE, ValueModel::U8(0))
        .cell("R2"@, COLUMN_TYPE_1BYTE, ValueModel::U8(0))
        .cell("R1"@, COLUMN_TYPE_1BYTE, ValueModel::U8(0))
        .cell("R0"@, COLUMN_TYPE_1BYTE, ValueModel::U8(0))
        .cell("PaddingArea"@, COLUMN_TYPE_DATA, ValueModel::Data(Seq::empty()))
        .cell("StreamAwbTocWork"@, COLUMN_TYPE_DATA, ValueModel::Data(Seq::empty()))
        .cell("StreamAwbAfs2Header"@, COLUMN_TYPE_DATA, ValueModel::Data(Seq::empty()))
}

/// The header table of a music sheet.
#[verifier::opaque]
pub open spec fn music_header_table(
    name: Seq<char>,
    config: MusicModel,
    parts: MusicParts,
) -> TableModel {
    let start = RowTable {
        table: TableModel { data_item_alignment: 32, ..TableModel::named("Header"@) },
        row: no_entries(),
    };
    music_closing(
        music_references(
            music_playback(music_opening(start, config, parts), config, parts),
            config,
            parts,
            name,
        ),
    ).finished()
}

/// The archive of a music sheet.
pub open spec fn music_awb(track: TrackModel, config: MusicModel) -> AfsModel {
    AfsModel {
        alignment: 32,
        subkey: 0,
        files: seq![(config.memory_awb_id as u32, track.data)],
    }
}

/// What a music sheet says of its waveform.
pub open spec fn music_info(track: TrackModel, config: MusicModel) -> HcaTrackInfo {
    track_info(track.data, config.reference_num_samples, config.reference_length_ms)
}

/// The nested tables of a music sheet, as bytes.
pub open spec fn music_parts(track: TrackModel, config: MusicModel) -> MusicParts {
    let info = music_info(track, config);
    MusicParts {
        cue: table_bytes(music_cue_table(info, config)),
        cue_name: table_bytes(music_cue_name_table(track.name, config)),
        waveform: table_bytes(music_waveform_table(track.encode_type, info, config)),
        synth: table_bytes(music_synth_table(config)),
        seq_command: table_bytes(music_seq_command_table(config)),
        track: table_bytes(music_track_table(config)),
        sequence: table_bytes(music_sequence_table(config)),
        awb: music_awb(track, config).bytes(0),
        string_value: table_bytes(music_string_value_table(config)),
        acf_reference: table_bytes(music_acf_reference_table(config)),
        synth_command: table_bytes(music_synth_command_table()),
        track_event: table_bytes(music_track_event_table(config)),
    }
}

/// Whether the nested tables of a music sheet and its archive fit in 32-bit
/// offsets.
pub open spec fn music_parts_fit(track: TrackModel, config: MusicModel) -> bool {
    let info = music_info(track, config);
    &&& fits(music_cue_table(info, config))
    &&& fits(music_cue_name_table(track.name, config))
    &&& fits(music_waveform_table(track.encode_type, info, config))
    &&& fits(music_synth_table(config))
    &&& fits(music_seq_command_table(config))
    &&& fits(music_track_table(config))
    &&& fits(music_sequence_table(config))
    &&& music_awb(track, config).fits(0)
    &&& fits(music_string_value_table(config))
    &&& fits(music_acf_reference_table(config))
    &&& fits(music_synth_command_table())
    &&& fits(music_track_event_table(config))
}

/// What an ACB builder holds.
pub struct AcbModel {
    pub tracks: Seq<TrackModel>,
    pub acb_version: u32,
    pub streaming: bool,
    pub music: Option<MusicModel>,
}

/// The first track, from `i` on, with a cue id that is too large or was used
/// before.
pub open spec fn track_error(tracks: Seq<TrackModel>, i: nat) -> Option<BuilderError>
    decreases tracks.len() - i,
{
    if i >= tracks.len() {
        None
    } else {
        let id = tracks[i as int].cue_id;
        if id > 0xFFFF {
            Some(BuilderError::CueIdTooLarge(id))
        } else if cue_used(tracks, i, id) {
            Some(BuilderError::DuplicateCueId(id))
        } else {
            track_error(tracks, i + 1)
        }
    }
}

/// Whether one of the first `n` tracks has a cue id.
pub open spec fn cue_used(tracks: Seq<TrackModel>, n: nat, id: u32) -> bool {
    exists|j: int| 0 <= j < n && (#[trigger] tracks[j]).cue_id == id
}

impl AcbModel {
    /// Why the sheet cannot be built, if so.
    pub open spec fn error(self) -> Option<BuilderError> {
        let n = self.tracks.len();
        if n == 0 {
            Some(BuilderError::NoTracks)
        } else if n > 0xFFFF {
            Some(BuilderError::TooManyTracks(n as usize))
        } else if self.music is Some && self.music->Some_0.last_cue() > 0xFFFF {
            Some(BuilderError::CueIdTooLarge(self.music->Some_0.last_cue()))
        } else if track_error(self.tracks, 0) is Some {
            track_error(self.tracks, 0)
        } else {
            match self.music {
                None => None,
                Some(m) => if n != 1 {
                    Some(BuilderError::MusicAcbRequiresSingleTrack(n as usize))
                } else if m.acf_md5_hash.len() != 16 {
                    Some(
                        BuilderError::InvalidFixedDataLength {
                            field: "acf_md5_hash",
                            expected: 16,
                            actual: m.acf_md5_hash.len() as usize,
                        },
                    )
                } else if m.acb_guid.len() != 16 {
                    Some(
                        BuilderError::InvalidFixedDataLength {
                            field: "acb_guid",
                            expected: 16,
                            actual: m.acb_guid.len() as usize,
                        },
                    )
                } else {
                    None
                },
            }
        }
    }

    /// The archive of all tracks, by cue id.
    pub open spec fn awb(self) -> AfsModel {
        AfsModel {
            alignment: 32,
            subkey: 0,
            files: self.tracks.map_values(|t: TrackModel| -> AfsFile { (t.cue_id, t.data) }),
        }
    }

    /// The header table of a sheet that is no music sheet. The archive is
    /// embedded unless it is streamed.
    #[verifier::opaque]
    pub open spec fn header_table(self) -> TableModel {
        let t = TableModel::named("Header"@)
            .column(ColumnDefModel::fixed("FileIdentifier"@, ValueModel::U32(0)))
            .column(ColumnDefModel::fixed("Size"@, ValueModel::U32(0)))
            .column(ColumnDefModel::fixed("Version"@, ValueModel::U32(self.acb_version)))
            .column(ColumnDefModel::fixed("Type"@, ValueModel::U8(0)))
            .column(ColumnDefModel::fixed("Target"@, ValueModel::U8(0)))
            .column(ColumnDefModel::fixed("AcbVolume"@, ValueModel::F32(0x3f80_0000)))
            .column(
                ColumnDefModel::fixed(
                    "NumCueLimit"@,
                    ValueModel::U16((self.tracks.len() % 0x1_0000) as u16),
                ),
            )
            .column(
                ColumnDefModel::fixed(
                    "CueTable"@,
                    ValueModel::Data(table_bytes(cue_table(self.tracks))),
                ),
            )
            .column(
                ColumnDefModel::fixed(
                    "CueNameTable"@,
                    ValueModel::Data(table_bytes(cue_name_table(self.tracks))),
                ),
            )
            .column(
                ColumnDefModel::fixed(
                    "SequenceTable"@,
                    ValueModel::Data(table_bytes(sequence_table(self.tracks))),
                ),
            )
            .column(
                ColumnDefModel::fixed(
                    "TrackTable"@,
                    ValueModel::Data(table_bytes(track_table(self.tracks))),
                ),
            )
            .column(
                ColumnDefModel::fixed(
                    "TrackEventTable"@,
                    ValueModel::Data(table_bytes(track_event_table(self.tracks))),
                ),
            )
            .column(
                ColumnDefModel::fixed(
                    "WaveformTable"@,
                    ValueModel::Data(table_bytes(waveform_table(self.tracks, self.streaming))),
                ),
            )
            .column(
                ColumnDefModel::fixed(
                    "SynthTable"@,
                    ValueModel::Data(table_bytes(synth_table(self.tracks))),
                ),
            );
        let t = if self.streaming {
            t.column(ColumnDefModel::fixed("StreamAwbHash"@, ValueModel::Data(zeros(16))))
        } else {
            t.column(ColumnDefModel::fixed("AwbFile"@, ValueModel::Data(self.awb().bytes(0))))
        };
        t.row(no_entries())
    }

    /// The table that makes up the sheet.
    pub open spec fn sheet(self) -> TableModel {
        match self.music {
            Some(m) => music_header_table(self.tracks[0].name, m, music_parts(self.tracks[0], m)),
            None => self.header_table(),
        }
    }

    /// Whether the nested tables and the archive fit in 32-bit offsets.
    pub open spec fn parts_fit(self) -> bool {
        match self.music {
            Some(m) => music_parts_fit(self.tracks[0], m),
            None => {
                &&& self.awb().fits(0)
                &&& fits(cue_table(self.tracks))
                &&& fits(cue_name_table(self.tracks))
                &&& fits(sequence_table(self.tracks))
                &&& fits(track_table(self.tracks))
                &&& fits(track_event_table(self.tracks))
                &&& fits(waveform_table(self.tracks, self.streaming))
                &&& fits(synth_table(self.tracks))
            },
        }
    }

    /// Whether the sheet and everything in it fit in 32-bit offsets.
    pub open spec fn fits(self) -> bool {
        self.parts_fit() && fits(self.sheet())
    }

    /// The bytes of the sheet.
    pub open spec fn acb_bytes(self) -> Seq<u8> {
        table_bytes(self.sheet())
    }

    /// The bytes that go to the external archive: none where the archive is
    /// embedded.
    pub open spec fn awb_bytes(self) -> Seq<u8> {
        if self.streaming && self.music is None { self.awb().bytes(0) } else { Seq::empty() }
    }
}

} // verus!
