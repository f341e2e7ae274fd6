//! Building ACB cue sheets.

use vstd::prelude::*;
use vstd::string::StringExecFns;
use crate::acb::afs::AfsArchiveBuilder;
use crate::acb::builder::{fits, BuilderError, ColumnDef, TableModel, UtfTableBuilder};
use crate::acb::consts::{
    COLUMN_TYPE_1BYTE, COLUMN_TYPE_2BYTE, COLUMN_TYPE_4BYTE, COLUMN_TYPE_DATA, COLUMN_TYPE_FLOAT,
    COLUMN_TYPE_STRING, WAVEFORM_ENCODE_TYPE_ADX, WAVEFORM_ENCODE_TYPE_HCA,
};
use crate::acb::sheet_model::{
    cue_at, cue_columns, cue_name_columns, cue_name_row, cue_name_table, cue_row, cue_table,
    cue_used, encoding_of, fmt_at, music_acf_reference_columns, music_acf_reference_row,
    music_acf_reference_table, music_awb, music_closing, music_cue_columns, music_cue_name_table,
    music_cue_row, music_cue_table, music_header_table, music_opening, music_parts, music_parts_fit,
    music_playback, music_references, music_seq_command_columns, music_seq_command_row,
    music_seq_command_table, music_sequence_columns, music_sequence_row, music_sequence_table,
    music_string_value_table, music_synth_columns, music_synth_command_table, music_synth_row,
    music_synth_table, music_track_columns, music_track_event_columns, music_track_event_row,
    music_track_event_table, music_track_row, music_track_table, music_waveform_table, nested,
    reference_info, sequence_columns, sequence_command, sequence_row, sequence_table, synth_columns,
    synth_command, synth_row, synth_table, track_columns, track_error, track_event_columns,
    track_event_row, track_event_table, track_info, track_row, track_table, waveform_columns,
    waveform_row, waveform_table, AcbModel, HcaTrackInfo, MusicModel, MusicParts, RowTable,
    TrackModel,
};
use crate::acb::utf::{entries, texts, value_map_insert, value_map_new, Value, ValueMap};
use crate::bytes::{be16, zeros};

verus! {

/// Audio track input for ACB building.
#[derive(Debug)]
pub struct TrackInput {
    pub name: String,
    pub cue_id: u32,
    pub data: Vec<u8>,
    pub encode_type: i32,
}

impl View for TrackInput {
    type V = TrackModel;

    open spec fn view(&self) -> TrackModel {
        TrackModel {
            name: self.name@,
            cue_id: self.cue_id,
            data: self.data@,
            encode_type: self.encode_type,
        }
    }
}

impl Clone for TrackInput {
    fn clone(&self) -> (r: Self)
        ensures
            r@ == self@,
    {
        TrackInput {
            name: self.name.clone(),
            cue_id: self.cue_id,
            data: crate::bytes::copy_bytes(self.data.as_slice()),
            encode_type: self.encode_type,
        }
    }
}

impl TrackInput {
    /// A track whose encoding is told by its first bytes.
    pub fn new(name: &str, cue_id: u32, data: Vec<u8>) -> (r: Self)
        ensures
            r@ == (TrackModel {
                name: name@,
                cue_id,
                data: data@,
                encode_type: encoding_of(data@),
            }),
    {
        let encode_type: i32 = Self::detect_encode_type(data.as_slice());
        TrackInput { name: name.to_owned(), cue_id, data, encode_type }
    }

    /// The encoding that the first bytes show.
    fn detect_encode_type(data: &[u8]) -> (r: i32)
        ensures
            r == encoding_of(data@),
    {
        if data.len() < 4 {
            return WAVEFORM_ENCODE_TYPE_HCA;
        }
        if data[0] == 0x80 && data[1] == 0 {
            return WAVEFORM_ENCODE_TYPE_ADX;
        }
        if data[0] == 0 && data[1] == 0 && data[2] == 0 && data[3] == 0x80 {
            return WAVEFORM_ENCODE_TYPE_ADX;
        }
        WAVEFORM_ENCODE_TYPE_HCA
    }
}

impl HcaTrackInfo {
    /// What the format chunk of a waveform says, unless it is missing, empty,
    /// or not shorter than the reference.
    pub fn from_hca_with_reference(
        data: &[u8],
        reference_num_samples: u32,
        reference_length_ms: u32,
    ) -> (r: Self)
        ensures
            r == track_info(data@, reference_num_samples, reference_length_ms),
    {
        let o: usize = match Self::find_fmt(data) {
            Some(o) => o,
            None => {
                return Self::with_reference(reference_num_samples, reference_length_ms);
            },
        };
        if data.len() - o < 12 {
            return Self::with_reference(reference_num_samples, reference_length_ms);
        }
        let channels: u8 = if data[o + 4] == 0 { 1 } else { data[o + 4] };
        let rate: u32 = data[o + 5] as u32 * 0x1_0000 + data[o + 6] as u32 * 0x100 + data[o
            + 7] as u32;
        let frame_bytes = crate::bytes::copy_range(data, o + 8, o + 12);
        let frame_count: u32 = crate::bytes::read_u32_be(frame_bytes.as_slice());
        if rate == 0 || frame_count == 0 {
            return Self::with_reference(reference_num_samples, reference_length_ms);
        }
        let num_samples: u64 = if frame_count as u64 * 1024 <= 0xFFFF_FFFF {
            frame_count as u64 * 1024
        } else {
            0xFFFF_FFFF
        };
        let length_ms: u32 = ((num_samples * 1000 / rate as u64) % 0x1_0000_0000) as u32;
        if length_ms >= reference_length_ms {
            return Self::with_reference(reference_num_samples, reference_length_ms);
        }
        HcaTrackInfo {
            channels,
            sampling_rate: if rate <= 0xFFFF { rate as u16 } else { 0xFFFF },
            num_samples: num_samples as u32,
            length_ms: if length_ms == 0 { reference_length_ms } else { length_ms },
        }
    }

    /// Where the letters `fmt` and a zero byte first stand.
    fn find_fmt(data: &[u8]) -> (r: Option<usize>)
        ensures
            match r {
                Some(o) => fmt_at(data@, 0) == Some(o as nat) && o + 4 <= data@.len(),
                None => fmt_at(data@, 0) is None,
            },
    {
        let mut i: usize = 0;
        while i <= data.len() && data.len() - i >= 4
            invariant
                i <= data@.len(),
                fmt_at(data@, 0) == fmt_at(data@, i as nat),
            decreases data@.len() - i,
        {
            let ghost w = data@.subrange(i as int, i + 4);
            let ghost letters = seq![0x66u8, 0x6d, 0x74, 0];
            if data[i] == 0x66 && data[i + 1] == 0x6d && data[i + 2] == 0x74 && data[i + 3] == 0 {
                assert(w =~= letters);
                return Some(i);
            }
            assert(w != letters) by {
                assert(w[0] == data@[i as int] && w[1] == data@[i + 1] && w[2] == data@[i + 2]
                    && w[3] == data@[i + 3]);
                assert(letters[0] == 0x66 && letters[1] == 0x6d && letters[2] == 0x74 && letters[3]
                    == 0);
            }
            i += 1;
        }
        None
    }

    /// What is said of a waveform whose header tells nothing.
    pub fn with_reference(num_samples: u32, length_ms: u32) -> (r: Self)
        ensures
            r == reference_info(num_samples, length_ms),
    {
        HcaTrackInfo { channels: 2, sampling_rate: 44_100, num_samples, length_ms }
    }
}

impl Default for HcaTrackInfo {
    fn default() -> (r: Self)
        ensures
            r == reference_info(5_831_458, 132_232),
    {
        Self::with_reference(5_831_458, 132_232)
    }
}

/// Options for building a single-track music cue sheet ACB.
#[derive(Debug)]
struct MusicAcbConfig {
    cue_id: u32,
    memory_awb_id: u16,
    virtual_cue_suffix: Option<String>,
    reference_num_samples: u32,
    reference_length_ms: u32,
    acb_version: u32,
    acf_md5_hash: Vec<u8>,
    acb_guid: Vec<u8>,
    version_string: String,
    acb_volume: u32,
    category_extension: u8,
    cue_priority_type: u8,
    acf_category_name: String,
    acf_category_id: u32,
    acf_bus_names: Vec<String>,
}

/// The text of an optional string.
pub open spec fn optional_text(s: Option<String>) -> Option<Seq<char>> {
    match s {
        Some(s) => Some(s@),
        None => None,
    }
}

impl View for MusicAcbConfig {
    type V = MusicModel;

    closed spec fn view(&self) -> MusicModel {
        MusicModel {
            cue_id: self.cue_id,
            memory_awb_id: self.memory_awb_id,
            virtual_cue_suffix: optional_text(self.virtual_cue_suffix),
            reference_num_samples: self.reference_num_samples,
            reference_length_ms: self.reference_length_ms,
            acb_version: self.acb_version,
            acf_md5_hash: self.acf_md5_hash@,
            acb_guid: self.acb_guid@,
            version_string: self.version_string@,
            acb_volume: self.acb_volume,
            category_extension: self.category_extension,
            cue_priority_type: self.cue_priority_type,
            acf_category_name: self.acf_category_name@,
            acf_category_id: self.acf_category_id,
            acf_bus_names: texts(self.acf_bus_names@),
        }
    }
}

/// The nested tables of a music sheet and its archive, as bytes.
#[derive(Debug)]
struct MusicPartBytes {
    cue: Vec<u8>,
    cue_name: Vec<u8>,
    waveform: Vec<u8>,
    synth: Vec<u8>,
    seq_command: Vec<u8>,
    track: Vec<u8>,
    sequence: Vec<u8>,
    awb: Vec<u8>,
    string_value: Vec<u8>,
    acf_reference: Vec<u8>,
    synth_command: Vec<u8>,
    track_event: Vec<u8>,
}

impl View for MusicPartBytes {
    type V = MusicParts;

    closed spec fn view(&self) -> MusicParts {
        MusicParts {
            cue: self.cue@,
            cue_name: self.cue_name@,
            waveform: self.waveform@,
            synth: self.synth@,
            seq_command: self.seq_command@,
            track: self.track@,
            sequence: self.sequence@,
            awb: self.awb@,
            string_value: self.string_value@,
            acf_reference: self.acf_reference@,
            synth_command: self.synth_command@,
            track_event: self.track_event@,
        }
    }
}

/// The table and row that two values under construction stand for.
pub open spec fn row_table(table: &UtfTableBuilder, row: &ValueMap) -> RowTable {
    RowTable { table: table@, row: entries(*row) }
}

/// Gives a row's column its value.
fn put(row: &mut ValueMap, name: &str, value: Value)
    ensures
        entries(*final(row)) == entries(*old(row)).insert(name@, value@),
{
    let _ = value_map_insert(row, name.to_owned(), value);
}

/// The two big-endian bytes of a number.
fn two_bytes(v: u16) -> (r: Vec<u8>)
    ensures
        r@ == be16(v),
{
    let mut out: Vec<u8> = Vec::new();
    crate::bytes::put_u16_be(&mut out, v);
    assert(out@ =~= be16(v));
    out
}

/// The four big-endian bytes of two numbers.
fn four_bytes(v: u16, w: u16) -> (r: Vec<u8>)
    ensures
        r@ == be16(v) + be16(w),
{
    let mut out: Vec<u8> = Vec::new();
    crate::bytes::put_u16_be(&mut out, v);
    crate::bytes::put_u16_be(&mut out, w);
    assert(out@ =~= be16(v) + be16(w));
    out
}

/// `n` zero bytes.
fn zero_bytes(n: usize) -> (r: Vec<u8>)
    ensures
        r@ == zeros(n as nat),
{
    let mut out: Vec<u8> = Vec::new();
    crate::bytes::put_zeros(&mut out, n);
    assert(out@ =~= zeros(n as nat));
    out
}

/// The low byte of a number.
fn low_byte(v: i32) -> (r: u8)
    ensures
        r == v as int % 0x100,
{
    ((v as i64 + 0x1_0000_0000) % 0x100) as u8
}

/// The command that starts a synth.
fn synth_command_bytes(synth: u16) -> (r: Vec<u8>)
    ensures
        r@ == synth_command(synth),
{
    let mut data: Vec<u8> = Vec::new();
    crate::bytes::put_u16_be(&mut data, 0x07d0);
    data.push(4);
    crate::bytes::put_u16_be(&mut data, 2);
    crate::bytes::put_u16_be(&mut data, synth);
    crate::bytes::put_u16_be(&mut data, 0);
    data.push(0);
    assert(data@ =~= synth_command(synth));
    data
}

/// The command of sequence `i` of a music sheet.
fn sequence_command_bytes(i: u16) -> (r: Vec<u8>)
    ensures
        r@ == sequence_command(i as int),
{
    let r: Vec<u8> = if i == 0 {
        vec![
            0x00u8, 0x41, 0x04, 0x00, 0x00, 0x00, 0x05, 0x00, 0x45, 0x04, 0x41, 0xf0, 0x00, 0x00,
            0x00, 0x6f, 0x04, 0x00, 0x00, 0x27, 0x10,
        ]
    } else {
        vec![
            0x00u8, 0x41, 0x04, 0x00, 0x00, 0x00, 0x05, 0x00, 0x45, 0x04, 0x41, 0xf0, 0x00, 0x00,
            0x00, 0x6f, 0x04, 0x00, 0x00, 0x23, 0x28, 0x00, 0x6f, 0x04, 0x00, 0x01, 0x13, 0x88,
            0x00, 0x6f, 0x04, 0x00, 0x03, 0x13, 0x88,
        ]
    };
    assert(r@ =~= sequence_command(i as int));
    r
}

/// The id of cue `i`, within 32 bits.
fn cue_id_at(first: u32, i: u16) -> (r: u32)
    ensures
        r == cue_at(first, i as int),
{
    if first as u64 + i as u64 <= 0xFFFF_FFFF {
        first + i as u32
    } else {
        u32::MAX
    }
}

/// A table as a music sheet embeds it.
fn nest(table: UtfTableBuilder) -> (r: UtfTableBuilder)
    ensures
        r@ == nested(table@),
{
    table.with_encoding(1).with_data_offset_alignment(1).with_table_alignment(4)
}

/// Builder for complete ACB files.
#[derive(Debug)]
pub struct AcbBuilder {
    tracks: Vec<TrackInput>,
    acb_version: u32,
    streaming_awb: bool,
    music_acb_config: Option<MusicAcbConfig>,
}

/// The models of a list of tracks.
pub open spec fn track_models(v: Seq<TrackInput>) -> Seq<TrackModel> {
    v.map_values(|t: TrackInput| t@)
}

impl View for AcbBuilder {
    type V = AcbModel;

    closed spec fn view(&self) -> AcbModel {
        AcbModel {
            tracks: track_models(self.tracks@),
            acb_version: self.acb_version,
            streaming: self.streaming_awb,
            music: match self.music_acb_config {
                Some(c) => Some(c@),
                None => None,
            },
        }
    }
}

impl AcbBuilder {
    pub fn new() -> (r: Self)
        ensures
            r@ == (AcbModel {
                tracks: Seq::empty(),
                acb_version: 0x0130_0500,
                streaming: false,
                music: None,
            }),
    {
        let r = AcbBuilder {
            tracks: Vec::new(),
            acb_version: 0x0130_0500,
            streaming_awb: false,
            music_acb_config: None,
        };
        assert(r@.tracks =~= Seq::<TrackModel>::empty());
        r
    }

    pub fn add_track(&mut self, track: TrackInput) -> (r: &mut Self)
        ensures
            r@ == (AcbModel { tracks: old(self)@.tracks.push(track@), ..old(self)@ }),
            *final(self) == *final(r),
    {
        self.tracks.push(track);
        assert(self@.tracks =~= old(self)@.tracks.push(track@));
        self
    }

    pub fn streaming_awb(self, streaming: bool) -> (r: Self)
        ensures
            r@ == (AcbModel { streaming, ..self@ }),
    {
        let mut r = self;
        r.streaming_awb = streaming;
        r
    }

    /// Makes the sheet a single-track music sheet. The volume is the bit
    /// pattern of a single-precision number.
    pub fn music_acb(
        self,
        cue_id: u32,
        virtual_cue_suffix: Option<String>,
        memory_awb_id: u16,
        reference_num_samples: u32,
        reference_length_ms: u32,
        acb_version: u32,
        acf_md5_hash: Vec<u8>,
        acb_guid: Vec<u8>,
        version_string: String,
        acb_volume: u32,
        category_extension: u8,
        cue_priority_type: u8,
        acf_category_name: String,
        acf_category_id: u32,
        acf_bus_names: Vec<String>,
    ) -> (r: Self)
        ensures
            r@ == (AcbModel {
                music: Some(
                    MusicModel {
                        cue_id,
                        memory_awb_id,
                        virtual_cue_suffix: optional_text(virtual_cue_suffix),
                        reference_num_samples,
                        reference_length_ms,
                        acb_version,
                        acf_md5_hash: acf_md5_hash@,
                        acb_guid: acb_guid@,
                        version_string: version_string@,
                        acb_volume,
                        category_extension,
                        cue_priority_type,
                        acf_category_name: acf_category_name@,
                        acf_category_id,
                        acf_bus_names: texts(acf_bus_names@),
                    },
                ),
                ..self@
            }),
    {
        let mut r = self;
        r.music_acb_config = Some(
            MusicAcbConfig {
                cue_id,
                memory_awb_id,
                virtual_cue_suffix,
                reference_num_samples,
                reference_length_ms,
                acb_version,
                acf_md5_hash,
                acb_guid,
                version_string,
                acb_volume,
                category_extension,
                cue_priority_type,
                acf_category_name,
                acf_category_id,
                acf_bus_names,
            },
        );
        r
    }

    /// Adds a column and its value in the row.
    fn add_row_value(
        table: &mut UtfTableBuilder,
        row: &mut ValueMap,
        name: &str,
        typ: u8,
        value: Value,
    )
        ensures
            row_table(final(table), final(row)) == row_table(old(table), old(row)).cell(
                name@,
                typ,
                value@,
            ),
    {
        table.add_column(ColumnDef::per_row(name, typ));
        put(row, name, value);
    }

    /// One cue, and a virtual one where a suffix is given.
    fn music_cue_count(config: &MusicAcbConfig) -> (r: u16)
        ensures
            r == config@.cue_count(),
    {
        if config.virtual_cue_suffix.is_some() {
            2
        } else {
            1
        }
    }

    /// The names of the cues of a music sheet.
    fn music_cue_names(name: &str, config: &MusicAcbConfig) -> (r: Vec<String>)
        ensures
            texts(r@) == config@.cue_names(name@),
    {
        let mut names: Vec<String> = Vec::new();
        names.push(name.to_owned());
        if let Some(suffix) = &config.virtual_cue_suffix {
            names.push(name.to_owned().concat(suffix.as_str()));
        }
        assert(texts(names@) =~= config@.cue_names(name@));
        names
    }

    /// The cue table: cue `i` plays sequence `i`.
    fn build_cue_table(&self) -> (r: UtfTableBuilder)
        ensures
            r@ == cue_table(self@.tracks),
    {
        let ghost tracks = self@.tracks;
        let mut table = UtfTableBuilder::new("CueTable");
        table.add_column(ColumnDef::per_row("CueId", COLUMN_TYPE_4BYTE));
        table.add_column(ColumnDef::per_row("ReferenceType", COLUMN_TYPE_1BYTE));
        table.add_column(ColumnDef::per_row("ReferenceIndex", COLUMN_TYPE_2BYTE));
        let mut i: usize = 0;
        assert(table@ == cue_columns());
        assert(table@.rows =~= Seq::new(0, |j: int| cue_row(tracks[j], j)));
        while i < self.tracks.len()
            invariant
                i <= self.tracks@.len(),
                tracks == self@.tracks,
                tracks.len() == self.tracks@.len(),
                table@ == (TableModel {
                    rows: Seq::new(i as nat, |j: int| cue_row(tracks[j], j)),
                    ..cue_columns()
                }),
            decreases self.tracks@.len() - i,
        {
            let track = &self.tracks[i];
            assert(track@ == tracks[i as int]);
            let mut row = value_map_new();
            put(&mut row, "CueId", Value::U32(track.cue_id));
            put(&mut row, "ReferenceType", Value::U8(3));
            put(&mut row, "ReferenceIndex", Value::U16((i as u64 % 0x1_0000) as u16));
            table.add_row(row);
            assert(table@.rows =~= Seq::new((i + 1) as nat, |j: int| cue_row(tracks[j], j)));
            i += 1;
        }
        table
    }

    /// The cue name table: cue `i` has the name of track `i`.
    fn build_cue_name_table(&self) -> (r: UtfTableBuilder)
        ensures
            r@ == cue_name_table(self@.tracks),
    {
        let ghost tracks = self@.tracks;
        let mut table = UtfTableBuilder::new("CueNameTable");
        table.add_column(ColumnDef::per_row("CueIndex", COLUMN_TYPE_2BYTE));
        table.add_column(ColumnDef::per_row("CueName", COLUMN_TYPE_STRING));
        let mut i: usize = 0;
        assert(table@ == cue_name_columns());
        assert(table@.rows =~= Seq::new(0, |j: int| cue_name_row(tracks[j], j)));
        while i < self.tracks.len()
            invariant
                i <= self.tracks@.len(),
                tracks == self@.tracks,
                tracks.len() == self.tracks@.len(),
                table@ == (TableModel {
                    rows: Seq::new(i as nat, |j: int| cue_name_row(tracks[j], j)),
                    ..cue_name_columns()
                }),
            decreases self.tracks@.len() - i,
        {
            let track = &self.tracks[i];
            assert(track@ == tracks[i as int]);
            let mut row = value_map_new();
            put(&mut row, "CueIndex", Value::U16((i as u64 % 0x1_0000) as u16));
            put(&mut row, "CueName", Value::String(track.name.clone()));
            table.add_row(row);
            assert(table@.rows =~= Seq::new((i + 1) as nat, |j: int| cue_name_row(tracks[j], j)));
            i += 1;
        }
        table
    }

    /// The sequence table: sequence `i` plays track `i`.
    fn build_sequence_table(&self) -> (r: UtfTableBuilder)
        ensures
            r@ == sequence_table(self@.tracks),
    {
        let ghost tracks = self@.tracks;
        let mut table = UtfTableBuilder::new("SequenceTable");
        table.add_column(ColumnDef::per_row("Type", COLUMN_TYPE_1BYTE));
        table.add_column(ColumnDef::per_row("NumTracks", COLUMN_TYPE_2BYTE));
        table.add_column(ColumnDef::per_row("TrackIndex", COLUMN_TYPE_DATA));
        let mut i: usize = 0;
        assert(table@ == sequence_columns());
        assert(table@.rows =~= Seq::new(0, |j: int| sequence_row(tracks[j], j)));
        while i < self.tracks.len()
            invariant
                i <= self.tracks@.len(),
                tracks == self@.tracks,
                tracks.len() == self.tracks@.len(),
                table@ == (TableModel {
                    rows: Seq::new(i as nat, |j: int| sequence_row(tracks[j], j)),
                    ..sequence_columns()
                }),
            decreases self.tracks@.len() - i,
        {
            let track = &self.tracks[i];
            assert(track@ == tracks[i as int]);
            let mut row = value_map_new();
            put(&mut row, "Type", Value::U8(0));
            put(&mut row, "NumTracks", Value::U16(1));
            put(&mut row, "TrackIndex", Value::Data(two_bytes((i as u64 % 0x1_0000) as u16)));
            table.add_row(row);
            assert(table@.rows =~= Seq::new((i + 1) as nat, |j: int| sequence_row(tracks[j], j)));
            i += 1;
        }
        table
    }

    /// The track table: track `i` runs event `i`.
    fn build_track_table(&self) -> (r: UtfTableBuilder)
        ensures
            r@ == track_table(self@.tracks),
    {
        let ghost tracks = self@.tracks;
        let mut table = UtfTableBuilder::new("TrackTable");
        table.add_column(ColumnDef::per_row("EventIndex", COLUMN_TYPE_2BYTE));
        let mut i: usize = 0;
        assert(table@ == track_columns());
        assert(table@.rows =~= Seq::new(0, |j: int| track_row(tracks[j], j)));
        while i < self.tracks.len()
            invariant
                i <= self.tracks@.len(),
                tracks == self@.tracks,
                tracks.len() == self.tracks@.len(),
                table@ == (TableModel {
                    rows: Seq::new(i as nat, |j: int| track_row(tracks[j], j)),
                    ..track_columns()
                }),
            decreases self.tracks@.len() - i,
        {
            let track = &self.tracks[i];
            assert(track@ == tracks[i as int]);
            let mut row = value_map_new();
            put(&mut row, "EventIndex", Value::U16((i as u64 % 0x1_0000) as u16));
            table.add_row(row);
            assert(table@.rows =~= Seq::new((i + 1) as nat, |j: int| track_row(tracks[j], j)));
            i += 1;
        }
        table
    }

    /// The event table: event `i` starts synth `i`.
    fn build_track_event_table(&self) -> (r: UtfTableBuilder)
        ensures
            r@ == track_event_table(self@.tracks),
    {
        let ghost tracks = self@.tracks;
        let mut table = UtfTableBuilder::new("TrackEventTable");
        table.add_column(ColumnDef::per_row("Command", COLUMN_TYPE_DATA));
        let mut i: usize = 0;
        assert(table@ == track_event_columns());
        assert(table@.rows =~= Seq::new(0, |j: int| track_event_row(tracks[j], j)));
        while i < self.tracks.len()
            invariant
                i <= self.tracks@.len(),
                tracks == self@.tracks,
                tracks.len() == self.tracks@.len(),
                table@ == (TableModel {
                    rows: Seq::new(i as nat, |j: int| track_event_row(tracks[j], j)),
                    ..track_event_columns()
                }),
            decreases self.tracks@.len() - i,
        {
            let track = &self.tracks[i];
            assert(track@ == tracks[i as int]);
            let mut row = value_map_new();
            put(&mut row, "Command", Value::Data(synth_command_bytes((i as u64 % 0x1_0000) as u16)));
            table.add_row(row);
            assert(table@.rows =~= Seq::new((i + 1) as nat, |j: int| track_event_row(tracks[j], j)));
            i += 1;
        }
        table
    }

    /// The waveform table: waveform `i` has the id of cue `i`, in the embedded or in
    /// the external archive.
    fn build_waveform_table(&self) -> (r: UtfTableBuilder)
        ensures
            r@ == waveform_table(self@.tracks, self@.streaming),
    {
        let ghost tracks = self@.tracks;
        let mut table = UtfTableBuilder::new("WaveformTable");
        table.add_column(ColumnDef::per_row("Id", COLUMN_TYPE_2BYTE));
        table.add_column(ColumnDef::per_row("EncodeType", COLUMN_TYPE_1BYTE));
        table.add_column(ColumnDef::per_row("Streaming", COLUMN_TYPE_1BYTE));
        table.add_column(ColumnDef::per_row("MemoryAwbId", COLUMN_TYPE_2BYTE));
        table.add_column(ColumnDef::per_row("StreamAwbId", COLUMN_TYPE_2BYTE));
        table.add_column(ColumnDef::per_row("StreamAwbPortNo", COLUMN_TYPE_2BYTE));
        let mut i: usize = 0;
        assert(table@ == waveform_columns());
        assert(table@.rows =~= Seq::new(0, |j: int| waveform_row(tracks[j], j, self.streaming_awb)));
        while i < self.tracks.len()
            invariant
                i <= self.tracks@.len(),
                tracks == self@.tracks,
                tracks.len() == self.tracks@.len(),
                table@ == (TableModel {
                    rows: Seq::new(i as nat, |j: int| waveform_row(tracks[j], j, self.streaming_awb)),
                    ..waveform_columns()
                }),
            decreases self.tracks@.len() - i,
        {
            let track = &self.tracks[i];
            assert(track@ == tracks[i as int]);
            let cue: u16 = (track.cue_id % 0x1_0000) as u16;
            let encode: u8 = low_byte(track.encode_type);
            let mut row = value_map_new();
            put(&mut row, "Id", Value::U16(cue));
            put(&mut row, "EncodeType", Value::U8(encode));
            put(&mut row, "Streaming", Value::U8(if self.streaming_awb { 1 } else { 0 }));
            put(&mut row, "MemoryAwbId", Value::U16(if self.streaming_awb { 0xFFFF } else { cue }));
            put(&mut row, "StreamAwbId", Value::U16(if self.streaming_awb { cue } else { 0xFFFF }));
            put(&mut row, "StreamAwbPortNo", Value::U16(if self.streaming_awb { 0 } else { 0xFFFF }));
            table.add_row(row);
            assert(table@.rows =~= Seq::new((i + 1) as nat, |j: int| waveform_row(tracks[j], j, self.streaming_awb)));
            i += 1;
        }
        table
    }

    /// The synth table: synth `i` plays waveform `i`.
    fn build_synth_table(&self) -> (r: UtfTableBuilder)
        ensures
            r@ == synth_table(self@.tracks),
    {
        let ghost tracks = self@.tracks;
        let mut table = UtfTableBuilder::new("SynthTable");
        table.add_column(ColumnDef::per_row("Type", COLUMN_TYPE_1BYTE));
        table.add_column(ColumnDef::per_row("VoiceLimitGroupName", COLUMN_TYPE_STRING));
        table.add_column(ColumnDef::per_row("ReferenceItems", COLUMN_TYPE_DATA));
        let mut i: usize = 0;
        assert(table@ == synth_columns());
        assert(table@.rows =~= Seq::new(0, |j: int| synth_row(tracks[j], j)));
        while i < self.tracks.len()
            invariant
                i <= self.tracks@.len(),
                tracks == self@.tracks,
                tracks.len() == self.tracks@.len(),
                table@ == (TableModel {
                    rows: Seq::new(i as nat, |j: int| synth_row(tracks[j], j)),
                    ..synth_columns()
                }),
            decreases self.tracks@.len() - i,
        {
            let track = &self.tracks[i];
            assert(track@ == tracks[i as int]);
            let mut row = value_map_new();
            put(&mut row, "Type", Value::U8(0));
            put(&mut row, "VoiceLimitGroupName", Value::String(String::new()));
            put(&mut row, "ReferenceItems", Value::Data(four_bytes(1, (i as u64 % 0x1_0000) as u16)));
            table.add_row(row);
            assert(table@.rows =~= Seq::new((i + 1) as nat, |j: int| synth_row(tracks[j], j)));
            i += 1;
        }
        table
    }

    /// The cues of a music sheet.
    fn build_music_cue_table(info: HcaTrackInfo, config: &MusicAcbConfig) -> (r: UtfTableBuilder)
        ensures
            r@ == music_cue_table(info, config@),
    {
        let ghost m = config@;
        let mut table = UtfTableBuilder::new("Cue");
        table.add_column(ColumnDef::per_row("CueId", COLUMN_TYPE_4BYTE));
        table.add_column(ColumnDef::constant("ReferenceType", Value::U8(3)));
        table.add_column(ColumnDef::per_row("ReferenceIndex", COLUMN_TYPE_2BYTE));
        table.add_column(ColumnDef::constant("UserData", Value::String(String::new())));
        table.add_column(ColumnDef::constant("Worksize", Value::U16(0)));
        table.add_column(ColumnDef::constant("AisacControlMap", Value::Data(Vec::new())));
        table.add_column(ColumnDef::constant("Length", Value::U32(info.length_ms)));
        table.add_column(ColumnDef::constant("NumAisacControlMaps", Value::U8(0)));
        table.add_column(ColumnDef::constant("HeaderVisibility", Value::U8(1)));
        table.add_column(ColumnDef::constant("NumRelatedWaveforms", Value::U16(1)));
        let total: u16 = Self::music_cue_count(config);
        let mut i: u16 = 0;
        assert(table@ == music_cue_columns(info));
        assert(table@.rows =~= Seq::new(0, |j: int| music_cue_row(m, j)));
        while i < total
            invariant
                i <= total <= 2,
                total == m.cue_count(),
                m == config@,
                table@ == (TableModel {
                    rows: Seq::new(i as nat, |j: int| music_cue_row(m, j)),
                    ..music_cue_columns(info)
                }),
            decreases total - i,
        {
            let mut row = value_map_new();
            put(&mut row, "CueId", Value::U32(cue_id_at(config.cue_id, i)));
            put(&mut row, "ReferenceIndex", Value::U16(i));
            table.add_row(row);
            assert(table@.rows =~= Seq::new((i + 1) as nat, |j: int| music_cue_row(m, j)));
            i += 1;
        }
        nest(table)
    }

    /// The synths of a music sheet.
    fn build_music_synth_table(config: &MusicAcbConfig) -> (r: UtfTableBuilder)
        ensures
            r@ == music_synth_table(config@),
    {
        let ghost m = config@;
        let mut table = UtfTableBuilder::new("Synth");
        table.add_column(ColumnDef::constant("Type", Value::U8(0)));
        table.add_column(ColumnDef::constant("VoiceLimitGroupName", Value::String(String::new())));
        table.add_column(ColumnDef::per_row("CommandIndex", COLUMN_TYPE_2BYTE));
        table.add_column(ColumnDef::per_row("ReferenceItems", COLUMN_TYPE_DATA));
        table.add_column(ColumnDef::constant("LocalAisacs", Value::Data(Vec::new())));
        table.add_column(ColumnDef::constant("GlobalAisacStartIndex", Value::U16(0xffff)));
        table.add_column(ColumnDef::constant("GlobalAisacNumRefs", Value::U16(0)));
        table.add_column(ColumnDef::per_row("ControlWorkArea1", COLUMN_TYPE_2BYTE));
        table.add_column(ColumnDef::per_row("ControlWorkArea2", COLUMN_TYPE_2BYTE));
        table.add_column(ColumnDef::constant("TrackValues", Value::Data(Vec::new())));
        table.add_column(ColumnDef::constant("ParameterPallet", Value::U16(0xffff)));
        table.add_column(ColumnDef::constant("ActionTrackStartIndex", Value::U16(0xffff)));
        table.add_column(ColumnDef::constant("NumActionTracks", Value::U16(0)));
        let total: u16 = Self::music_cue_count(config);
        let mut i: u16 = 0;
        assert(table@ == music_synth_columns());
        assert(table@.rows =~= Seq::new(0, |j: int| music_synth_row(m, j)));
        while i < total
            invariant
                i <= total <= 2,
                total == m.cue_count(),
                m == config@,
                table@ == (TableModel {
                    rows: Seq::new(i as nat, |j: int| music_synth_row(m, j)),
                    ..music_synth_columns()
                }),
            decreases total - i,
        {
            let mut row = value_map_new();
            put(&mut row, "CommandIndex", Value::U16(if i == 0 { 0xffff } else { 0 }));
            put(&mut row, "ReferenceItems", Value::Data(four_bytes(1, 0)));
            put(&mut row, "ControlWorkArea1", Value::U16(i));
            put(&mut row, "ControlWorkArea2", Value::U16(i));
            table.add_row(row);
            assert(table@.rows =~= Seq::new((i + 1) as nat, |j: int| music_synth_row(m, j)));
            i += 1;
        }
        nest(table)
    }

    /// The sequence commands of a music sheet.
    fn build_music_seq_command_table(config: &MusicAcbConfig) -> (r: UtfTableBuilder)
        ensures
            r@ == music_seq_command_table(config@),
    {
        let ghost m = config@;
        let mut table = UtfTableBuilder::new("SequenceCommand");
        table.add_column(ColumnDef::per_row("Command", COLUMN_TYPE_DATA));
        let total: u16 = Self::music_cue_count(config);
        let mut i: u16 = 0;
        assert(table@ == music_seq_command_columns());
        assert(table@.rows =~= Seq::new(0, |j: int| music_seq_command_row(m, j)));
        while i < total
            invariant
                i <= total <= 2,
                total == m.cue_count(),
                m == config@,
                table@ == (TableModel {
                    rows: Seq::new(i as nat, |j: int| music_seq_command_row(m, j)),
                    ..music_seq_command_columns()
                }),
            decreases total - i,
        {
            let mut row = value_map_new();
            put(&mut row, "Command", Value::Data(sequence_command_bytes(i)));
            table.add_row(row);
            assert(table@.rows =~= Seq::new((i + 1) as nat, |j: int| music_seq_command_row(m, j)));
            i += 1;
        }
        nest(table)
    }

    /// The tracks of a music sheet.
    fn build_music_track_table(config: &MusicAcbConfig) -> (r: UtfTableBuilder)
        ensures
            r@ == music_track_table(config@),
    {
        let ghost m = config@;
        let mut table = UtfTableBuilder::new("Track");
        table.add_column(ColumnDef::per_row("EventIndex", COLUMN_TYPE_2BYTE));
        table.add_column(ColumnDef::constant("CommandIndex", Value::U16(0xffff)));
        table.add_column(ColumnDef::constant("LocalAisacs", Value::Data(Vec::new())));
        table.add_column(ColumnDef::constant("GlobalAisacStartIndex", Value::U16(0xffff)));
        table.add_column(ColumnDef::constant("GlobalAisacNumRefs", Value::U16(0)));
        table.add_column(ColumnDef::constant("ParameterPallet", Value::U16(0xffff)));
        table.add_column(ColumnDef::constant("TargetType", Value::U8(0)));
        table.add_column(ColumnDef::constant("TargetName", Value::String(String::new())));
        table.add_column(ColumnDef::constant("TargetId", Value::U32(0xffff_ffff)));
        table.add_column(ColumnDef::constant("TargetAcbName", Value::String(String::new())));
        table.add_column(ColumnDef::constant("Scope", Value::U8(0)));
        table.add_column(ColumnDef::constant("TargetTrackNo", Value::U16(0xffff)));
        let total: u16 = Self::music_cue_count(config);
        let mut i: u16 = 0;
        assert(table@ == music_track_columns());
        assert(table@.rows =~= Seq::new(0, |j: int| music_track_row(m, j)));
        while i < total
            invariant
                i <= total <= 2,
                total == m.cue_count(),
                m == config@,
                table@ == (TableModel {
                    rows: Seq::new(i as nat, |j: int| music_track_row(m, j)),
                    ..music_track_columns()
                }),
            decreases total - i,
        {
            let mut row = value_map_new();
            put(&mut row, "EventIndex", Value::U16(i));
            table.add_row(row);
            assert(table@.rows =~= Seq::new((i + 1) as nat, |j: int| music_track_row(m, j)));
            i += 1;
        }
        nest(table)
    }

    /// The sequences of a music sheet.
    fn build_music_sequence_table(config: &MusicAcbConfig) -> (r: UtfTableBuilder)
        ensures
            r@ == music_sequence_table(config@),
    {
        let ghost m = config@;
        let mut table = UtfTableBuilder::new("Sequence");
        table.add_column(ColumnDef::constant("PlaybackRatio", Value::U16(100)));
        table.add_column(ColumnDef::constant("NumTracks", Value::U16(1)));
        table.add_column(ColumnDef::per_row("TrackIndex", COLUMN_TYPE_DATA));
        table.add_column(ColumnDef::per_row("CommandIndex", COLUMN_TYPE_2BYTE));
        table.add_column(ColumnDef::constant("LocalAisacs", Value::Data(Vec::new())));
        table.add_column(ColumnDef::constant("GlobalAisacStartIndex", Value::U16(0xffff)));
        table.add_column(ColumnDef::constant("GlobalAisacNumRefs", Value::U16(0)));
        table.add_column(ColumnDef::constant("ParameterPallet", Value::U16(0xffff)));
        table.add_column(ColumnDef::constant("ActionTrackStartIndex", Value::U16(0xffff)));
        table.add_column(ColumnDef::constant("NumActionTracks", Value::U16(0)));
        table.add_column(ColumnDef::constant("TrackValues", Value::Data(Vec::new())));
        table.add_column(ColumnDef::constant("Type", Value::U8(0)));
        table.add_column(ColumnDef::per_row("ControlWorkArea1", COLUMN_TYPE_2BYTE));
        table.add_column(ColumnDef::per_row("ControlWorkArea2", COLUMN_TYPE_2BYTE));
        table.add_column(ColumnDef::constant("InstPluginTrackStartIndex", Value::U16(0xffff)));
        table.add_column(ColumnDef::constant("NumInstPluginTracks", Value::U16(0)));
        let total: u16 = Self::music_cue_count(config);
        let mut i: u16 = 0;
        assert(table@ == music_sequence_columns());
        assert(table@.rows =~= Seq::new(0, |j: int| music_sequence_row(m, j)));
        while i < total
            invariant
                i <= total <= 2,
                total == m.cue_count(),
                m == config@,
                table@ == (TableModel {
                    rows: Seq::new(i as nat, |j: int| music_sequence_row(m, j)),
                    ..music_sequence_columns()
                }),
            decreases total - i,
        {
            let mut row = value_map_new();
            put(&mut row, "TrackIndex", Value::Data(two_bytes(i)));
            put(&mut row, "CommandIndex", Value::U16(i));
            put(&mut row, "ControlWorkArea1", Value::U16(i));
            put(&mut row, "ControlWorkArea2", Value::U16(i));
            table.add_row(row);
            assert(table@.rows =~= Seq::new((i + 1) as nat, |j: int| music_sequence_row(m, j)));
            i += 1;
        }
        nest(table)
    }

    /// The track events of a music sheet.
    fn build_music_track_event_table(config: &MusicAcbConfig) -> (r: UtfTableBuilder)
        ensures
            r@ == music_track_event_table(config@),
    {
        let ghost m = config@;
        let mut table = UtfTableBuilder::new("TrackEvent");
        table.add_column(ColumnDef::per_row("Command", COLUMN_TYPE_DATA));
        let total: u16 = Self::music_cue_count(config);
        let mut i: u16 = 0;
        assert(table@ == music_track_event_columns());
        assert(table@.rows =~= Seq::new(0, |j: int| music_track_event_row(m, j)));
        while i < total
            invariant
                i <= total <= 2,
                total == m.cue_count(),
                m == config@,
                table@ == (TableModel {
                    rows: Seq::new(i as nat, |j: int| music_track_event_row(m, j)),
                    ..music_track_event_columns()
                }),
            decreases total - i,
        {
            let mut row = value_map_new();
            put(&mut row, "Command", Value::Data(synth_command_bytes(i)));
            table.add_row(row);
            assert(table@.rows =~= Seq::new((i + 1) as nat, |j: int| music_track_event_row(m, j)));
            i += 1;
        }
        nest(table)
    }

    /// The identity of a music sheet and its cue tables.
    fn add_music_opening(
        table: &mut UtfTableBuilder,
        row: &mut ValueMap,
        config: &MusicAcbConfig,
        parts: &MusicPartBytes,
    )
        ensures
            row_table(final(table), final(row)) == music_opening(row_table(old(table), old(row)), config@, parts@),
    {
        Self::add_row_value(table, row, "FileIdentifier", COLUMN_TYPE_4BYTE, Value::U32(0));
        Self::add_row_value(table, row, "Size", COLUMN_TYPE_4BYTE, Value::U32(0));
        Self::add_row_value(table, row, "Version", COLUMN_TYPE_4BYTE, Value::U32(config.acb_version));
        Self::add_row_value(table, row, "Type", COLUMN_TYPE_1BYTE, Value::U8(0));
        Self::add_row_value(table, row, "Target", COLUMN_TYPE_1BYTE, Value::U8(0));
        Self::add_row_value(table, row, "AcfMd5Hash", COLUMN_TYPE_DATA, Value::Data(crate::bytes::copy_bytes(config.acf_md5_hash.as_slice())));
        Self::add_row_value(table, row, "CategoryExtension", COLUMN_TYPE_1BYTE, Value::U8(config.category_extension));
        Self::add_row_value(table, row, "CueTable", COLUMN_TYPE_DATA, Value::Data(crate::bytes::copy_bytes(parts.cue.as_slice())));
        Self::add_row_value(table, row, "CueNameTable", COLUMN_TYPE_DATA, Value::Data(crate::bytes::copy_bytes(parts.cue_name.as_slice())));
        Self::add_row_value(table, row, "WaveformTable", COLUMN_TYPE_DATA, Value::Data(crate::bytes::copy_bytes(parts.waveform.as_slice())));
        Self::add_row_value(table, row, "AisacTable", COLUMN_TYPE_DATA, Value::Data(Vec::new()));
        Self::add_row_value(table, row, "GraphTable", COLUMN_TYPE_DATA, Value::Data(Vec::new()));
        Self::add_row_value(table, row, "GlobalAisacReferenceTable", COLUMN_TYPE_DATA, Value::Data(Vec::new()));
        Self::add_row_value(table, row, "AisacNameTable", COLUMN_TYPE_DATA, Value::Data(Vec::new()));
    }

    /// The playback tables of a music sheet and its archive.
    fn add_music_playback(
        table: &mut UtfTableBuilder,
        row: &mut ValueMap,
        config: &MusicAcbConfig,
        parts: &MusicPartBytes,
    )
        ensures
            row_table(final(table), final(row)) == music_playback(row_table(old(table), old(row)), config@, parts@),
    {
        Self::add_row_value(table, row, "SynthTable", COLUMN_TYPE_DATA, Value::Data(crate::bytes::copy_bytes(parts.synth.as_slice())));
        Self::add_row_value(table, row, "SeqCommandTable", COLUMN_TYPE_DATA, Value::Data(crate::bytes::copy_bytes(parts.seq_command.as_slice())));
        Self::add_row_value(table, row, "TrackTable", COLUMN_TYPE_DATA, Value::Data(crate::bytes::copy_bytes(parts.track.as_slice())));
        Self::add_row_value(table, row, "SequenceTable", COLUMN_TYPE_DATA, Value::Data(crate::bytes::copy_bytes(parts.sequence.as_slice())));
        Self::add_row_value(table, row, "AisacControlNameTable", COLUMN_TYPE_DATA, Value::Data(Vec::new()));
        Self::add_row_value(table, row, "AutoModulationTable", COLUMN_TYPE_DATA, Value::Data(Vec::new()));
        Self::add_row_value(table, row, "StreamAwbTocWorkOld", COLUMN_TYPE_DATA, Value::Data(Vec::new()));
        Self::add_row_value(table, row, "AwbFile", COLUMN_TYPE_DATA, Value::Data(crate::bytes::copy_bytes(parts.awb.as_slice())));
        Self::add_row_value(table, row, "VersionString", COLUMN_TYPE_STRING, Value::String(config.version_string.clone()));
        Self::add_row_value(table, row, "CueLimitWorkTable", COLUMN_TYPE_DATA, Value::Data(Vec::new()));
        Self::add_row_value(table, row, "NumCueLimitListWorks", COLUMN_TYPE_2BYTE, Value::U16(0));
        Self::add_row_value(table, row, "NumCueLimitNodeWorks", COLUMN_TYPE_2BYTE, Value::U16(0));
        Self::add_row_value(table, row, "AcbGuid", COLUMN_TYPE_DATA, Value::Data(crate::bytes::copy_bytes(config.acb_guid.as_slice())));
        Self::add_row_value(table, row, "StreamAwbHash", COLUMN_TYPE_DATA, Value::Data(zero_bytes(16)));
        Self::add_row_value(table, row, "StreamAwbTocWork_Old", COLUMN_TYPE_DATA, Value::Data(Vec::new()));
        Self::add_row_value(table, row, "AcbVolume", COLUMN_TYPE_FLOAT, Value::F32(config.acb_volume));
    }

    /// The names and references of a music sheet.
    fn add_music_references(
        table: &mut UtfTableBuilder,
        row: &mut ValueMap,
        config: &MusicAcbConfig,
        parts: &MusicPartBytes,
        name: &str,
    )
        ensures
            row_table(final(table), final(row)) == music_references(row_table(old(table), old(row)), config@, parts@, name@),
    {
        Self::add_row_value(table, row, "StringValueTable", COLUMN_TYPE_DATA, Value::Data(crate::bytes::copy_bytes(parts.string_value.as_slice())));
        Self::add_row_value(table, row, "OutsideLinkTable", COLUMN_TYPE_DATA, Value::Data(Vec::new()));
        Self::add_row_value(table, row, "BlockSequenceTable", COLUMN_TYPE_DATA, Value::Data(Vec::new()));
        Self::add_row_value(table, row, "BlockTable", COLUMN_TYPE_DATA, Value::Data(Vec::new()));
        Self::add_row_value(table, row, "Name", COLUMN_TYPE_STRING, Value::String(name.to_owned()));
        Self::add_row_value(table, row, "CharacterEncodingType", COLUMN_TYPE_1BYTE, Value::U8(0));
        Self::add_row_value(table, row, "EventTable", COLUMN_TYPE_DATA, Value::Data(Vec::new()));
        Self::add_row_value(table, row, "ActionTrackTable", COLUMN_TYPE_DATA, Value::Data(Vec::new()));
        Self::add_row_value(table, row, "AcfReferenceTable", COLUMN_TYPE_DATA, Value::Data(crate::bytes::copy_bytes(parts.acf_reference.as_slice())));
        Self::add_row_value(table, row, "WaveformExtensionDataTable", COLUMN_TYPE_DATA, Value::Data(Vec::new()));
        Self::add_row_value(table, row, "BeatSyncInfoTable", COLUMN_TYPE_DATA, Value::Data(Vec::new()));
        Self::add_row_value(table, row, "CuePriorityType", COLUMN_TYPE_1BYTE, Value::U8(config.cue_priority_type));
        Self::add_row_value(table, row, "NumCueLimit", COLUMN_TYPE_2BYTE, Value::U16(0));
        Self::add_row_value(table, row, "TrackCommandTable", COLUMN_TYPE_DATA, Value::Data(Vec::new()));
        Self::add_row_value(table, row, "SynthCommandTable", COLUMN_TYPE_DATA, Value::Data(crate::bytes::copy_bytes(parts.synth_command.as_slice())));
        Self::add_row_value(table, row, "TrackEventTable", COLUMN_TYPE_DATA, Value::Data(crate::bytes::copy_bytes(parts.track_event.as_slice())));
    }

    /// The parameter tables of a music sheet and its reserved columns.
    fn add_music_closing(
        table: &mut UtfTableBuilder,
        row: &mut ValueMap,
    )
        ensures
            row_table(final(table), final(row)) == music_closing(row_table(old(table), old(row))),
    {
        Self::add_row_value(table, row, "SeqParameterPalletTable", COLUMN_TYPE_DATA, Value::Data(Vec::new()));
        Self::add_row_value(table, row, "TrackParameterPalletTable", COLUMN_TYPE_DATA, Value::Data(Vec::new()));
        Self::add_row_value(table, row, "SynthParameterPalletTable", COLUMN_TYPE_DATA, Value::Data(Vec::new()));
        Self::add_row_value(table, row, "SoundGeneratorTable", COLUMN_TYPE_DATA, Value::Data(Vec::new()));
        Self::add_row_value(table, row, "InstrumentPluginTrackTable", COLUMN_TYPE_DATA, Value::Data(Vec::new()));
        Self::add_row_value(table, row, "InstrumentPluginParameterTable", COLUMN_TYPE_DATA, Value::Data(Vec::new()));
        Self::add_row_value(table, row, "R8", COLUMN_TYPE_1BYTE, Value::U8(0));
        Self::add_row_value(table, row, "ProjectKey", COLUMN_TYPE_DATA, Value::Data(Vec::new()));
        Self::add_row_value(table, row, "R6", COLUMN_TYPE_1BYTE, Value::U8(0));
        Self::add_row_value(table, row, "R5", COLUMN_TYPE_1BYTE, Value::U8(0));
        Self::add_row_value(table, row, "R4", COLUMN_TYPE_1BYTE, Value::U8(0));
        Self::add_row_value(table, row, "R3", COLUMN_TYPE_1BYTE, Value::U8(0));
        Self::add_row_value(table, row, "R2", COLUMN_TYPE_1BYTE, Value::U8(0));
        Self::add_row_value(table, row, "R1", COLUMN_TYPE_1BYTE, Value::U8(0));
        Self::add_row_value(table, row, "R0", COLUMN_TYPE_1BYTE, Value::U8(0));
        Self::add_row_value(table, row, "PaddingArea", COLUMN_TYPE_DATA, Value::Data(Vec::new()));
        Self::add_row_value(table, row, "StreamAwbTocWork", COLUMN_TYPE_DATA, Value::Data(Vec::new()));
        Self::add_row_value(table, row, "StreamAwbAfs2Header", COLUMN_TYPE_DATA, Value::Data(Vec::new()));
    }

    /// The names of the cues of a music sheet.
    fn build_music_cue_name_table(name: &str, config: &MusicAcbConfig) -> (r: UtfTableBuilder)
        ensures
            r@ == music_cue_name_table(name@, config@),
    {
        let names = Self::music_cue_names(name, config);
        let ghost m = music_cue_name_table(name@, config@);
        let mut table = UtfTableBuilder::new("CueName");
        table.add_column(ColumnDef::per_row("CueName", COLUMN_TYPE_STRING));
        table.add_column(ColumnDef::per_row("CueIndex", COLUMN_TYPE_2BYTE));
        let ghost columns = table@;
        assert(names@.len() == texts(names@).len());
        let mut i: usize = 0;
        assert(table@.rows =~= m.rows.subrange(0, 0));
        while i < names.len()
            invariant
                i <= names@.len(),
                names@.len() == m.rows.len() <= 2,
                texts(names@) == config@.cue_names(name@),
                m == music_cue_name_table(name@, config@),
                table@ == (TableModel { rows: m.rows.subrange(0, i as int), ..columns }),
            decreases names@.len() - i,
        {
            assert(texts(names@)[i as int] == names@[i as int]@);
            let mut row = value_map_new();
            put(&mut row, "CueName", Value::String(names[i].clone()));
            put(&mut row, "CueIndex", Value::U16(i as u16));
            table.add_row(row);
            assert(table@.rows =~= m.rows.subrange(0, i + 1));
            i += 1;
        }
        assert(m.rows.subrange(0, m.rows.len() as int) =~= m.rows);
        nest(table)
    }

    /// The waveform of a music sheet.
    fn build_music_waveform_table(
        track: &TrackInput,
        info: HcaTrackInfo,
        config: &MusicAcbConfig,
    ) -> (r: UtfTableBuilder)
        ensures
            r@ == music_waveform_table(track.encode_type, info, config@),
    {
        let mut table = UtfTableBuilder::new("Waveform");
        let mut row = value_map_new();
        let encode: u8 = low_byte(track.encode_type);
        Self::add_row_value(
            &mut table,
            &mut row,
            "MemoryAwbId",
            COLUMN_TYPE_2BYTE,
            Value::U16(config.memory_awb_id),
        );
        Self::add_row_value(&mut table, &mut row, "EncodeType", COLUMN_TYPE_1BYTE, Value::U8(encode));
        Self::add_row_value(&mut table, &mut row, "Streaming", COLUMN_TYPE_1BYTE, Value::U8(0));
        Self::add_row_value(
            &mut table,
            &mut row,
            "NumChannels",
            COLUMN_TYPE_1BYTE,
            Value::U8(info.channels),
        );
        Self::add_row_value(&mut table, &mut row, "LoopFlag", COLUMN_TYPE_1BYTE, Value::U8(1));
        Self::add_row_value(
            &mut table,
            &mut row,
            "SamplingRate",
            COLUMN_TYPE_2BYTE,
            Value::U16(info.sampling_rate),
        );
        Self::add_row_value(
            &mut table,
            &mut row,
            "NumSamples",
            COLUMN_TYPE_4BYTE,
            Value::U32(info.num_samples),
        );
        Self::add_row_value(
            &mut table,
            &mut row,
            "ExtensionData",
            COLUMN_TYPE_2BYTE,
            Value::U16(0xffff),
        );
        Self::add_row_value(
            &mut table,
            &mut row,
            "StreamAwbPortNo",
            COLUMN_TYPE_2BYTE,
            Value::U16(0xffff),
        );
        Self::add_row_value(
            &mut table,
            &mut row,
            "StreamAwbId",
            COLUMN_TYPE_2BYTE,
            Value::U16(0xffff),
        );
        table.add_row(row);
        nest(table)
    }

    /// The bus names of a music sheet.
    fn build_music_string_value_table(config: &MusicAcbConfig) -> (r: UtfTableBuilder)
        ensures
            r@ == music_string_value_table(config@),
    {
        let ghost m = music_string_value_table(config@);
        let mut table = UtfTableBuilder::new("Strings");
        table.add_column(ColumnDef::per_row("StringValue", COLUMN_TYPE_STRING));
        let ghost columns = table@;
        let mut i: usize = 0;
        assert(table@.rows =~= m.rows.subrange(0, 0));
        while i < config.acf_bus_names.len()
            invariant
                i <= config.acf_bus_names@.len(),
                config.acf_bus_names@.len() == m.rows.len(),
                m == music_string_value_table(config@),
                table@ == (TableModel { rows: m.rows.subrange(0, i as int), ..columns }),
            decreases config.acf_bus_names@.len() - i,
        {
            assert(config@.acf_bus_names[i as int] == config.acf_bus_names@[i as int]@);
            let mut row = value_map_new();
            put(&mut row, "StringValue", Value::String(config.acf_bus_names[i].clone()));
            table.add_row(row);
            assert(table@.rows =~= m.rows.subrange(0, i + 1));
            i += 1;
        }
        assert(m.rows.subrange(0, m.rows.len() as int) =~= m.rows);
        nest(table)
    }

    /// The references of a music sheet: the category, then each bus.
    fn build_music_acf_reference_table(config: &MusicAcbConfig) -> (r: UtfTableBuilder)
        ensures
            r@ == music_acf_reference_table(config@),
    {
        let ghost m = music_acf_reference_table(config@);
        let mut table = UtfTableBuilder::new("AcfReference");
        table.add_column(ColumnDef::per_row("Type", COLUMN_TYPE_1BYTE));
        table.add_column(ColumnDef::per_row("Name", COLUMN_TYPE_STRING));
        table.add_column(ColumnDef::constant("Name2", Value::String(String::new())));
        table.add_column(ColumnDef::per_row("Id", COLUMN_TYPE_4BYTE));
        let ghost columns = table@;
        assert(columns == music_acf_reference_columns());
        let mut category = value_map_new();
        put(&mut category, "Type", Value::U8(3));
        put(&mut category, "Name", Value::String(config.acf_category_name.clone()));
        put(&mut category, "Id", Value::U32(config.acf_category_id));
        table.add_row(category);
        let mut i: usize = 0;
        assert(table@.rows =~= m.rows.subrange(0, 1));
        while i < config.acf_bus_names.len()
            invariant
                i <= config.acf_bus_names@.len(),
                config.acf_bus_names@.len() + 1 == m.rows.len(),
                m == music_acf_reference_table(config@),
                table@ == (TableModel { rows: m.rows.subrange(0, i + 1), ..columns }),
            decreases config.acf_bus_names@.len() - i,
        {
            assert(config@.acf_bus_names[i as int] == config.acf_bus_names@[i as int]@);
            let mut row = value_map_new();
            put(&mut row, "Type", Value::U8(9));
            put(&mut row, "Name", Value::String(config.acf_bus_names[i].clone()));
            put(&mut row, "Id", Value::U32(u32::MAX));
            table.add_row(row);
            assert(m.rows[i + 1] == music_acf_reference_row(config@, i + 1));
            assert(table@.rows =~= m.rows.subrange(0, i + 2));
            i += 1;
        }
        assert(m.rows.subrange(0, m.rows.len() as int) =~= m.rows);
        nest(table)
    }

    /// The synth command of a music sheet.
    fn build_music_synth_command_table() -> (r: UtfTableBuilder)
        ensures
            r@ == music_synth_command_table(),
    {
        let mut table = UtfTableBuilder::new("SynthCommand");
        table.add_column(ColumnDef::per_row("Command", COLUMN_TYPE_DATA));
        let command: Vec<u8> = vec![0x00u8, 0x6f, 0x04, 0x00, 0x03, 0x13, 0x88];
        assert(command@ =~= seq![0x00u8, 0x6f, 0x04, 0x00, 0x03, 0x13, 0x88]);
        let mut row = value_map_new();
        put(&mut row, "Command", Value::Data(command));
        table.add_row(row);
        nest(table)
    }

    /// The header table of a music sheet, with its single row.
    fn build_music_row_header_table(
        name: &str,
        config: &MusicAcbConfig,
        parts: &MusicPartBytes,
    ) -> (r: UtfTableBuilder)
        ensures
            r@ == music_header_table(name@, config@, parts@),
    {
        proof {
            reveal(music_header_table);
        }
        let mut table = UtfTableBuilder::new("Header").with_data_item_alignment(32);
        let mut row = value_map_new();
        Self::add_music_opening(&mut table, &mut row, config, parts);
        Self::add_music_playback(&mut table, &mut row, config, parts);
        Self::add_music_references(&mut table, &mut row, config, parts, name);
        Self::add_music_closing(&mut table, &mut row);
        table.add_row(row);
        table
    }

    /// The nested tables of a music sheet and its archive, where all of them
    /// fit.
    fn build_music_parts(track: &TrackInput, config: &MusicAcbConfig) -> (r: Option<MusicPartBytes>)
        ensures
            r is Some <==> music_parts_fit(track@, config@),
            r is Some ==> r->Some_0@ == music_parts(track@, config@),
    {
        let info = HcaTrackInfo::from_hca_with_reference(
            track.data.as_slice(),
            config.reference_num_samples,
            config.reference_length_ms,
        );
        let mut awb_builder = AfsArchiveBuilder::new();
        awb_builder.add_file(
            config.memory_awb_id as u32,
            crate::bytes::copy_bytes(track.data.as_slice()),
        );
        assert(awb_builder@.files =~= music_awb(track@, config@).files);
        if !awb_builder.fits_alone() {
            return None;
        }
        let mut awb: Vec<u8> = Vec::new();
        if awb_builder.build(&mut awb).is_err() {
            return None;
        }
        assert(awb@ =~= music_awb(track@, config@).bytes(0));
        let cue = Self::build_music_cue_table(info, config).to_bytes()?;
        let cue_name = Self::build_music_cue_name_table(track.name.as_str(), config).to_bytes()?;
        let waveform = Self::build_music_waveform_table(track, info, config).to_bytes()?;
        let synth = Self::build_music_synth_table(config).to_bytes()?;
        let seq_command = Self::build_music_seq_command_table(config).to_bytes()?;
        let track_table = Self::build_music_track_table(config).to_bytes()?;
        let sequence = Self::build_music_sequence_table(config).to_bytes()?;
        let string_value = Self::build_music_string_value_table(config).to_bytes()?;
        let acf_reference = Self::build_music_acf_reference_table(config).to_bytes()?;
        let synth_command = Self::build_music_synth_command_table().to_bytes()?;
        let track_event = Self::build_music_track_event_table(config).to_bytes()?;
        Some(
            MusicPartBytes {
                cue,
                cue_name,
                waveform,
                synth,
                seq_command,
                track: track_table,
                sequence,
                awb,
                string_value,
                acf_reference,
                synth_command,
                track_event,
            },
        )
    }

    /// Checks the number of tracks and their cue ids.
    fn validate_tracks(&self) -> (r: Result<(), BuilderError>)
        requires
            self@.tracks.len() > 0,
        ensures
            ({
                let n = self@.tracks.len();
                if n > 0xFFFF {
                    r == Err::<(), BuilderError>(BuilderError::TooManyTracks(n as usize))
                } else if self@.music is Some && self@.music->Some_0.last_cue() > 0xFFFF {
                    r == Err::<(), BuilderError>(
                        BuilderError::CueIdTooLarge(self@.music->Some_0.last_cue()),
                    )
                } else {
                    match track_error(self@.tracks, 0) {
                        Some(e) => r == Err::<(), BuilderError>(e),
                        None => r is Ok,
                    }
                }
            }),
    {
        let ghost tracks = self@.tracks;
        if self.tracks.len() > 0xFFFF {
            return Err(BuilderError::TooManyTracks(self.tracks.len()));
        }
        if let Some(config) = &self.music_acb_config {
            let end: u64 = config.cue_id as u64 + Self::music_cue_count(config) as u64;
            let last: u32 = if end <= 0xFFFF_FFFF { (end - 1) as u32 } else { u32::MAX - 1 };
            if last > 0xFFFF {
                return Err(BuilderError::CueIdTooLarge(last));
            }
        }
        let mut seen: Vec<bool> = Vec::new();
        let mut k: u32 = 0;
        while k < 0x1_0000
            invariant
                k <= 0x1_0000,
                seen@.len() == k,
                forall|c: int| 0 <= c < k ==> !(#[trigger] seen@[c]),
            decreases 0x1_0000 - k,
        {
            seen.push(false);
            k += 1;
        }
        let mut i: usize = 0;
        while i < self.tracks.len()
            invariant
                i <= self.tracks@.len(),
                tracks == self@.tracks,
                tracks.len() == self.tracks@.len(),
                seen@.len() == 0x1_0000,
                forall|c: int|
                    0 <= c < 0x1_0000 ==> (#[trigger] seen@[c]) == cue_used(
                        tracks,
                        i as nat,
                        c as u32,
                    ),
                track_error(tracks, 0) == track_error(tracks, i as nat),
                tracks.len() <= 0xFFFF,
                self@.music is Some ==> self@.music->Some_0.last_cue() <= 0xFFFF,
            decreases self.tracks@.len() - i,
        {
            let track = &self.tracks[i];
            assert(track@ == tracks[i as int]);
            if track.cue_id > 0xFFFF {
                return Err(BuilderError::CueIdTooLarge(track.cue_id));
            }
            let id: usize = track.cue_id as usize;
            if seen[id] {
                return Err(BuilderError::DuplicateCueId(track.cue_id));
            }
            let ghost before = seen@;
            seen.set(id, true);
            assert forall|c: int| 0 <= c < 0x1_0000 implies (#[trigger] seen@[c]) == cue_used(
                tracks,
                (i + 1) as nat,
                c as u32,
            ) by {
                if c == id {
                    assert(tracks[i as int].cue_id == c as u32);
                } else {
                    assert(seen@[c] == before[c]);
                    if cue_used(tracks, (i + 1) as nat, c as u32) {
                        let j = choose|j: int|
                            0 <= j < i + 1 && (#[trigger] tracks[j]).cue_id == c as u32;
                        assert(j != i);
                        assert(cue_used(tracks, i as nat, c as u32));
                    }
                    if cue_used(tracks, i as nat, c as u32) {
                        let j = choose|j: int|
                            0 <= j < i && (#[trigger] tracks[j]).cue_id == c as u32;
                        assert(0 <= j < i + 1);
                    }
                }
            }
            i += 1;
        }
        Ok(())
    }

    /// Checks the length of fixed data.
    fn validate_fixed_data(field: &'static str, data: &[u8], expected: usize) -> (r: Result<
        (),
        BuilderError,
    >)
        ensures
            if data@.len() == expected {
                r is Ok
            } else {
                r == Err::<(), BuilderError>(
                    BuilderError::InvalidFixedDataLength {
                        field,
                        expected,
                        actual: data@.len() as usize,
                    },
                )
            },
    {
        if data.len() != expected {
            return Err(
                BuilderError::InvalidFixedDataLength { field, expected, actual: data.len() },
            );
        }
        Ok(())
    }

    /// The sheet of a single-track music cue, where it fits.
    fn build_music_acb(&self, config: &MusicAcbConfig) -> (r: Result<Option<Vec<u8>>, BuilderError>)
        requires
            self@.music == Some(config@),
            self@.tracks.len() > 0,
            self@.tracks.len() <= 0xFFFF,
            config@.last_cue() <= 0xFFFF,
            track_error(self@.tracks, 0) is None,
        ensures
            match self@.error() {
                Some(e) => r == Err::<Option<Vec<u8>>, BuilderError>(e),
                None => {
                    &&& r is Ok
                    &&& r->Ok_0 is Some <==> self@.fits()
                    &&& r->Ok_0 is Some ==> r->Ok_0->Some_0@ == self@.acb_bytes()
                },
            },
    {
        if self.tracks.len() != 1 {
            return Err(BuilderError::MusicAcbRequiresSingleTrack(self.tracks.len()));
        }
        Self::validate_fixed_data("acf_md5_hash", config.acf_md5_hash.as_slice(), 16)?;
        Self::validate_fixed_data("acb_guid", config.acb_guid.as_slice(), 16)?;
        let track = &self.tracks[0];
        assert(track@ == self@.tracks[0]);
        match Self::build_music_parts(track, config) {
            Some(parts) => Ok(
                Self::build_music_row_header_table(
                    track.name.as_str(),
                    config,
                    &parts,
                ).to_bytes(),
            ),
            None => Ok(None),
        }
    }

    /// The archive of all tracks.
    fn build_awb(&self) -> (r: AfsArchiveBuilder)
        ensures
            r@ == self@.awb(),
    {
        let ghost tracks = self@.tracks;
        let mut awb = AfsArchiveBuilder::new();
        let mut i: usize = 0;
        assert(awb@.files =~= self@.awb().files.subrange(0, 0));
        while i < self.tracks.len()
            invariant
                i <= self.tracks@.len(),
                tracks == self@.tracks,
                tracks.len() == self.tracks@.len(),
                awb@ == (crate::acb::afs::AfsModel {
                    files: self@.awb().files.subrange(0, i as int),
                    ..self@.awb()
                }),
            decreases self.tracks@.len() - i,
        {
            let track = &self.tracks[i];
            assert(track@ == tracks[i as int]);
            awb.add_file(track.cue_id, crate::bytes::copy_bytes(track.data.as_slice()));
            assert(awb@.files =~= self@.awb().files.subrange(0, i + 1));
            i += 1;
        }
        assert(self@.awb().files.subrange(0, self@.awb().files.len() as int)
            =~= self@.awb().files);
        awb
    }

    /// The bytes of the sheet and of the external archive, unless one of the
    /// tables has a text too long to encode or is too large for 32-bit offsets.
    pub fn assemble(&self) -> (r: Result<Option<(Vec<u8>, Vec<u8>)>, BuilderError>)
        ensures
            match self@.error() {
                Some(e) => r == Err::<Option<(Vec<u8>, Vec<u8>)>, BuilderError>(e),
                None => {
                    &&& r is Ok
                    &&& r->Ok_0 is Some <==> self@.fits()
                    &&& r->Ok_0 is Some ==> r->Ok_0->Some_0.0@ == self@.acb_bytes()
                        && r->Ok_0->Some_0.1@ == self@.awb_bytes()
                },
            },
    {
        if self.tracks.len() == 0 {
            return Err(BuilderError::NoTracks);
        }
        self.validate_tracks()?;
        if let Some(config) = &self.music_acb_config {
            let sheet = self.build_music_acb(config)?;
            let none: Vec<u8> = Vec::new();
            assert(none@ =~= self@.awb_bytes());
            return match sheet {
                Some(bytes) => Ok(Some((bytes, none))),
                None => Ok(None),
            };
        }
        let awb_builder = self.build_awb();
        if !awb_builder.fits_alone() {
            return Ok(None);
        }
        let mut awb: Vec<u8> = Vec::new();
        awb_builder.build(&mut awb)?;
        assert(awb@ =~= self@.awb().bytes(0));
        let table = match self.build_header_table(awb.as_slice()) {
            Some(t) => t,
            None => {
                return Ok(None);
            },
        };
        let acb = match table.to_bytes() {
            Some(b) => b,
            None => {
                return Ok(None);
            },
        };
        if !self.streaming_awb {
            awb.clear();
        }
        assert(awb@ =~= self@.awb_bytes());
        Ok(Some((acb, awb)))
    }

    /// The header table of a sheet that is no music sheet, where the nested
    /// tables fit.
    fn build_header_table(&self, awb: &[u8]) -> (r: Option<UtfTableBuilder>)
        requires
            self@.music is None,
            awb@ == self@.awb().bytes(0),
            self@.awb().fits(0),
        ensures
            r is Some <==> self@.parts_fit(),
            r is Some ==> r->Some_0@ == self@.header_table(),
    {
        proof {
            reveal(AcbModel::header_table);
        }
        let mut t = UtfTableBuilder::new("Header");
        t.add_column(ColumnDef::constant("FileIdentifier", Value::U32(0)));
        t.add_column(ColumnDef::constant("Size", Value::U32(0)));
        t.add_column(ColumnDef::constant("Version", Value::U32(self.acb_version)));
        t.add_column(ColumnDef::constant("Type", Value::U8(0)));
        t.add_column(ColumnDef::constant("Target", Value::U8(0)));
        t.add_column(ColumnDef::constant("AcbVolume", Value::F32(0x3f80_0000)));
        let limit: u16 = (self.tracks.len() as u64 % 0x1_0000) as u16;
        t.add_column(ColumnDef::constant("NumCueLimit", Value::U16(limit)));
        let cue = self.build_cue_table().to_bytes()?;
        t.add_column(ColumnDef::constant("CueTable", Value::Data(cue)));
        let cue_name = self.build_cue_name_table().to_bytes()?;
        t.add_column(ColumnDef::constant("CueNameTable", Value::Data(cue_name)));
        let sequence = self.build_sequence_table().to_bytes()?;
        t.add_column(ColumnDef::constant("SequenceTable", Value::Data(sequence)));
        let track = self.build_track_table().to_bytes()?;
        t.add_column(ColumnDef::constant("TrackTable", Value::Data(track)));
        let track_event = self.build_track_event_table().to_bytes()?;
        t.add_column(ColumnDef::constant("TrackEventTable", Value::Data(track_event)));
        let waveform = self.build_waveform_table().to_bytes()?;
        t.add_column(ColumnDef::constant("WaveformTable", Value::Data(waveform)));
        let synth = self.build_synth_table().to_bytes()?;
        t.add_column(ColumnDef::constant("SynthTable", Value::Data(synth)));
        if self.streaming_awb {
            t.add_column(ColumnDef::constant("StreamAwbHash", Value::Data(zero_bytes(16))));
        } else {
            t.add_column(
                ColumnDef::constant("AwbFile", Value::Data(crate::bytes::copy_bytes(awb))),
            );
        }
        t.add_row(value_map_new());
        Some(t)
    }

    /// Build the ACB file and, where it is streamed, the AWB file; both are
    /// appended to their outputs.
    pub fn build(&self, acb_writer: &mut Vec<u8>, awb_writer: Option<&mut Vec<u8>>) -> (r: Result<
        (),
        BuilderError,
    >)
        requires
            self@.error() is None ==> self@.fits(),
        ensures
            match self@.error() {
                Some(e) => {
                    &&& r == Err::<(), BuilderError>(e)
                    &&& final(acb_writer)@ == old(acb_writer)@
                    &&& awb_writer is Some ==> (*final(awb_writer->Some_0))@ == (*old(
                        awb_writer->Some_0,
                    ))@
                },
                None => {
                    &&& r is Ok
                    &&& final(acb_writer)@ == old(acb_writer)@ + self@.acb_bytes()
                    &&& awb_writer is Some ==> (*final(awb_writer->Some_0))@ == (*old(
                        awb_writer->Some_0,
                    ))@ + self@.awb_bytes()
                },
            },
    {
        match self.assemble() {
            Err(e) => Err(e),
            Ok(None) => Ok(()),
            Ok(Some((acb, awb))) => {
                if let Some(out) = awb_writer {
                    crate::bytes::put_slice(out, awb.as_slice());
                }
                crate::bytes::put_slice(acb_writer, acb.as_slice());
                Ok(())
            },
        }
    }
}

impl Default for AcbBuilder {
    fn default() -> (r: Self)
        ensures
            r@ == (AcbModel {
                tracks: Seq::empty(),
                acb_version: 0x0130_0500,
                streaming: false,
                music: None,
            }),
    {
        Self::new()
    }
}

} // verus!
