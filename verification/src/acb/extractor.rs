//! Taking the waveforms out of an ACB.

use vstd::prelude::*;
use vstd::string::StringExecFns;
use crate::acb::afs::{archive_of, AfsArchive, AfsError, ArchiveModel};
use crate::acb::consts::{extension_of, wave_type_extension};
use crate::acb::utf::{
    all_entries, entries, field, get_bytes_field, get_string_field, take_bytes_field, texts,
    utf_table, UtfError, UtfTable, ValueMap, ValueModel,
};
use crate::reader::{addressable, Cursor, IoError};
use crate::text::{ascii_chars, signed_decimal};

verus! {

/// A playable track of an ACB: a cue and the waveform it plays.
#[derive(Debug)]
pub struct Track {
    pub name: String,
    pub cue_id: i32,
    pub wav_id: i32,
    pub enc_type: i32,
    pub is_stream: bool,
    pub stream_awb_id: i32,
}

/// What a track holds.
pub struct PlayModel {
    pub name: Seq<char>,
    pub cue_id: i32,
    pub wav_id: i32,
    pub enc_type: i32,
    pub is_stream: bool,
    pub stream_awb_id: i32,
}

impl View for Track {
    type V = PlayModel;

    open spec fn view(&self) -> PlayModel {
        PlayModel {
            name: self.name@,
            cue_id: self.cue_id,
            wav_id: self.wav_id,
            enc_type: self.enc_type,
            is_stream: self.is_stream,
            stream_awb_id: self.stream_awb_id,
        }
    }
}

/// The tracks of an ACB.
#[derive(Debug)]
pub struct TrackList {
    pub tracks: Vec<Track>,
}

impl View for TrackList {
    type V = Seq<PlayModel>;

    open spec fn view(&self) -> Seq<PlayModel> {
        self.tracks@.map_values(|t: Track| t@)
    }
}

/// A waveform taken out of an ACB.
#[derive(Debug, Clone, PartialEq, Eq)]
pub struct ExtractedAcbTrack {
    pub name: String,
    /// Cue id of the track (cue-table index).
    pub cue_id: i32,
    pub extension: String,
    pub data: Vec<u8>,
    /// AFS2 subkey of the AWB this waveform came from; 0 when the AWB is
    /// unencrypted.
    pub subkey: u16,
}

/// What an extracted track holds.
pub struct ExtractedModel {
    pub name: Seq<char>,
    pub cue_id: i32,
    pub extension: Seq<char>,
    pub data: Seq<u8>,
    pub subkey: u16,
}

impl View for ExtractedAcbTrack {
    type V = ExtractedModel;

    open spec fn view(&self) -> ExtractedModel {
        ExtractedModel {
            name: self.name@,
            cue_id: self.cue_id,
            extension: self.extension@,
            data: self.data@,
            subkey: self.subkey,
        }
    }
}

/// Why an ACB could not be taken apart.
#[derive(Debug)]
pub enum ExtractError {
    Io(IoError),
    Utf(UtfError),
    Afs(AfsError),
    InvalidAcb,
}

/// A cue that references a waveform.
#[derive(Debug, Clone, PartialEq, Eq)]
pub struct AcbCueRef {
    pub name: String,
    pub cue_id: i32,
}

/// A distinct (de-duplicated) waveform from an ACB, with every cue that maps
/// to it. ACBs frequently point multiple cues at one physical waveform.
#[derive(Debug, Clone, PartialEq, Eq)]
pub struct UniqueWaveform {
    pub extension: String,
    /// AFS2 subkey of the originating AWB (0 if unencrypted).
    pub subkey: u16,
    pub data: Vec<u8>,
    /// All cues that reference this waveform (always at least one).
    pub cues: Vec<AcbCueRef>,
}

/// What a distinct waveform holds; cues by name and id.
pub struct UniqueModel {
    pub extension: Seq<char>,
    pub subkey: u16,
    pub data: Seq<u8>,
    pub cues: Seq<(Seq<char>, i32)>,
}

/// The names and ids of a list of cues.
pub open spec fn cue_models(v: Seq<AcbCueRef>) -> Seq<(Seq<char>, i32)> {
    v.map_values(|c: AcbCueRef| (c.name@, c.cue_id))
}

impl View for UniqueWaveform {
    type V = UniqueModel;

    open spec fn view(&self) -> UniqueModel {
        UniqueModel {
            extension: self.extension@,
            subkey: self.subkey,
            data: self.data@,
            cues: cue_models(self.cues@),
        }
    }
}

/// The models of a list of waveforms.
pub open spec fn unique_models(v: Seq<UniqueWaveform>) -> Seq<UniqueModel> {
    v.map_values(|w: UniqueWaveform| w@)
}

/// The models of a list of extracted tracks.
pub open spec fn extracted_models(v: Seq<ExtractedAcbTrack>) -> Seq<ExtractedModel> {
    v.map_values(|w: ExtractedAcbTrack| w@)
}

/// The archives that tracks take their waveforms from.
pub struct ArchivesModel {
    pub embedded: Option<ArchiveModel>,
    pub external: Seq<ArchiveModel>,
}

/// The models of a list of archives.
pub open spec fn archive_models(v: Seq<AfsArchive>) -> Seq<ArchiveModel> {
    v.map_values(|a: AfsArchive| a@)
}

/// What archives in memory stand for.
pub open spec fn archives(embedded: Option<AfsArchive>, external: Seq<AfsArchive>) -> ArchivesModel {
    ArchivesModel {
        embedded: match embedded {
            Some(a) => Some(a@),
            None => None,
        },
        external: archive_models(external),
    }
}

/// Whether all archives are well formed.
pub open spec fn archives_wf(embedded: Option<AfsArchive>, external: Seq<AfsArchive>) -> bool {
    &&& embedded is Some ==> embedded->Some_0.wf()
    &&& forall|i: int| 0 <= i < external.len() ==> (#[trigger] external[i]).wf()
}

/// The archive that a track's waveform lies in.
pub open spec fn archive_for(t: PlayModel, a: ArchivesModel) -> Option<ArchiveModel> {
    if t.is_stream {
        if 0 <= t.stream_awb_id < a.external.len() {
            Some(a.external[t.stream_awb_id as int])
        } else {
            None
        }
    } else {
        a.embedded
    }
}

/// A track's waveform and the subkey of its archive; nothing where the archive
/// is not there.
pub open spec fn track_data(t: PlayModel, a: ArchivesModel) -> Result<
    Option<(Seq<u8>, u16)>,
    ExtractError,
> {
    match archive_for(t, a) {
        None => Ok(None),
        Some(awb) => match awb.file(t.wav_id) {
            Ok(d) => Ok(Some((d, awb.subkey))),
            Err(e) => Err(ExtractError::Afs(e)),
        },
    }
}

/// The extension of a track's waveform, without a dot; the number of an
/// unknown format.
pub open spec fn extension_text(enc_type: i32) -> Seq<char> {
    let ext = extension_of(enc_type);
    if ext.len() == 0 {
        ascii_chars(signed_decimal(enc_type as int))
    } else {
        ext.subrange(1, ext.len() as int)
    }
}

/// The extension of a track's file, with its dot.
pub open spec fn file_extension(enc_type: i32) -> Seq<char> {
    let ext = extension_of(enc_type);
    if ext.len() == 0 {
        seq!['.'] + ascii_chars(signed_decimal(enc_type as int))
    } else {
        ext
    }
}

/// The first `n` tracks taken out, or the first error among them. Tracks
/// without an archive are left out.
pub open spec fn extracted(tracks: Seq<PlayModel>, a: ArchivesModel, n: nat) -> Result<
    Seq<ExtractedModel>,
    ExtractError,
>
    decreases n,
{
    if n == 0 {
        Ok(Seq::empty())
    } else {
        match extracted(tracks, a, (n - 1) as nat) {
            Err(e) => Err(e),
            Ok(out) => {
                let t = tracks[n - 1];
                match track_data(t, a) {
                    Err(e) => Err(e),
                    Ok(None) => Ok(out),
                    Ok(Some((data, subkey))) => Ok(
                        out.push(
                            ExtractedModel {
                                name: t.name,
                                cue_id: t.cue_id,
                                extension: extension_text(t.enc_type),
                                data,
                                subkey,
                            },
                        ),
                    ),
                }
            },
        }
    }
}

/// What identifies a physical waveform: which archive it lies in, and its id.
pub type WaveKey = (bool, i32, i32);

/// The waveform that a track plays.
pub open spec fn wave_key(t: PlayModel) -> WaveKey {
    (t.is_stream, t.stream_awb_id, t.wav_id)
}

/// Distinct waveforms, each with its key.
pub struct UniqueState {
    pub keys: Seq<WaveKey>,
    pub waves: Seq<UniqueModel>,
}

/// The distinct waveforms of the first `n` tracks, or the first error among
/// them.
pub open spec fn unique(tracks: Seq<PlayModel>, a: ArchivesModel, n: nat) -> Result<
    UniqueState,
    ExtractError,
>
    decreases n,
{
    if n == 0 {
        Ok(UniqueState { keys: Seq::empty(), waves: Seq::empty() })
    } else {
        match unique(tracks, a, (n - 1) as nat) {
            Err(e) => Err(e),
            Ok(st) => with_track(st, tracks[n - 1], a),
        }
    }
}

/// The distinct waveforms after one more track: a known waveform gets one more
/// cue, a new one is taken out.
pub open spec fn with_track(st: UniqueState, t: PlayModel, a: ArchivesModel) -> Result<
    UniqueState,
    ExtractError,
> {
    let key = wave_key(t);
    let cue = (t.name, t.cue_id);
    if st.keys.contains(key) {
        let i = st.keys.index_of(key);
        let w = st.waves[i];
        Ok(
            UniqueState {
                keys: st.keys,
                waves: st.waves.update(i, UniqueModel { cues: w.cues.push(cue), ..w }),
            },
        )
    } else {
        match track_data(t, a) {
            Err(e) => Err(e),
            Ok(None) => Ok(st),
            Ok(Some((data, subkey))) => Ok(
                UniqueState {
                    keys: st.keys.push(key),
                    waves: st.waves.push(
                        UniqueModel {
                            extension: extension_text(t.enc_type),
                            subkey,
                            data,
                            cues: seq![cue],
                        },
                    ),
                },
            ),
        }
    }
}

/// Output extension for a track's waveform (no leading dot; the number of the
/// encoding for unknown formats).
pub fn track_extension(track: &Track) -> (r: String)
    ensures
        r@ == extension_text(track.enc_type),
{
    proof {
        extension_lengths();
    }
    let ext = wave_type_extension(track.enc_type);
    if ext.is_empty() {
        crate::text::decimal_string(track.enc_type as i64)
    } else {
        let n: usize = ext.unicode_len();
        ext.substring_char(1, n).to_owned()
    }
}

/// The name of a track's file: the cue's name and the extension.
pub fn track_file_name(track: &Track) -> (r: String)
    ensures
        r@ == track.name@ + file_extension(track.enc_type),
{
    proof {
        extension_lengths();
        reveal_strlit(".");
    }
    let ext = wave_type_extension(track.enc_type);
    if ext.is_empty() {
        let number = crate::text::decimal_string(track.enc_type as i64);
        let r = track.name.clone().concat(".").concat(number.as_str());
        assert(r@ =~= track.name@ + file_extension(track.enc_type));
        r
    } else {
        track.name.clone().concat(ext)
    }
}

/// No extension but the empty one is empty.
proof fn extension_lengths()
    ensures
        ""@.len() == 0,
        ".adx"@.len() > 0,
        ".hca"@.len() > 0,
        ".vag"@.len() > 0,
        ".at3"@.len() > 0,
        ".bcwav"@.len() > 0,
        ".at9"@.len() > 0,
        ".dsp"@.len() > 0,
{
    reveal_strlit("");
    reveal_strlit(".adx");
    reveal_strlit(".hca");
    reveal_strlit(".vag");
    reveal_strlit(".at3");
    reveal_strlit(".bcwav");
    reveal_strlit(".at9");
    reveal_strlit(".dsp");
}

/// The archive embedded in a row: the bytes of its `AwbFile` field, where they
/// hold an archive.
pub open spec fn embedded_archive(row: Map<Seq<char>, ValueModel>) -> Option<ArchiveModel> {
    match field(row, "AwbFile"@, |v: ValueModel| v.bytes()) {
        Some(d) => if d.len() == 0 {
            None
        } else {
            match archive_of(d) {
                Ok(a) => Some(a),
                Err(_) => None,
            }
        },
        None => None,
    }
}

/// Moves the embedded archive out of a row, which keeps an empty field.
pub fn load_embedded_awb(row: &mut ValueMap) -> (r: Option<AfsArchive>)
    ensures
        match embedded_archive(entries(*old(row))) {
            Some(a) => r is Some && r->Some_0@ == a && r->Some_0.wf(),
            None => r is None,
        },
        entries(*final(row)) == if field(
            entries(*old(row)),
            "AwbFile"@,
            |v: ValueModel| v.bytes(),
        ) is Some {
            entries(*old(row)).insert("AwbFile"@, ValueModel::Data(Seq::empty()))
        } else {
            entries(*old(row))
        },
{
    match take_bytes_field(row, "AwbFile") {
        Some(data) => {
            if data.len() == 0 {
                return None;
            }
            match AfsArchive::new(Cursor::new(data)) {
                Ok(a) => Some(a),
                Err(_) => None,
            }
        },
        None => None,
    }
}

/// The file names of the external archives that a table of hashes lists, up to
/// row `n`.
pub open spec fn awb_names(rows: Seq<Map<Seq<char>, ValueModel>>, n: nat) -> Seq<Seq<char>>
    decreases n,
{
    if n == 0 {
        Seq::empty()
    } else {
        let rest = awb_names(rows, (n - 1) as nat);
        match field(rows[n - 1], "Name"@, |v: ValueModel| v.text()) {
            Some(name) => rest.push(name + ".awb"@),
            None => rest,
        }
    }
}

/// The file names of the external archives of a row.
pub open spec fn external_names(row: Map<Seq<char>, ValueModel>) -> Seq<Seq<char>> {
    match field(row, "StreamAwbHash"@, |v: ValueModel| v.bytes()) {
        Some(d) => if d.len() == 0 {
            Seq::empty()
        } else {
            match utf_table(d, 0) {
                Ok(t) => awb_names(t.rows, t.rows.len()),
                Err(_) => Seq::empty(),
            }
        },
        None => Seq::empty(),
    }
}

/// The file names of the external archives that a row refers to, in order.
pub fn external_awb_names(row: &ValueMap) -> (r: Vec<String>)
    requires
        forall|d: Seq<u8>|
            field(entries(*row), "StreamAwbHash"@, |v: ValueModel| v.bytes()) == Some(d)
                ==> addressable(#[trigger] d.len()),
    ensures
        texts(r@) == external_names(entries(*row)),
{
    let mut names: Vec<String> = Vec::new();
    assert(texts(names@) =~= Seq::empty());
    let hash = match get_bytes_field(row, "StreamAwbHash") {
        Some(d) => d,
        None => {
            return names;
        },
    };
    if hash.len() == 0 {
        return names;
    }
    let table = match UtfTable::new(Cursor::new(crate::bytes::copy_bytes(hash))) {
        Ok(t) => t,
        Err(_) => {
            return names;
        },
    };
    let ghost rows = all_entries(table.rows@);
    let mut i: usize = 0;
    while i < table.rows.len()
        invariant
            i <= table.rows@.len(),
            rows == all_entries(table.rows@),
            texts(names@) == awb_names(rows, i as nat),
        decreases table.rows@.len() - i,
    {
        assert(rows[i as int] == entries(table.rows@[i as int]));
        if let Some(name) = get_string_field(&table.rows[i], "Name") {
            let ghost before = names@;
            let file = name.to_owned().concat(".awb");
            names.push(file);
            assert(texts(names@) =~= texts(before).push(file@));
        }
        i += 1;
    }
    names
}

/// The waveform of a track plus the originating AWB's AFS2 subkey.
pub fn get_track_data(
    track: &Track,
    embedded_awb: &Option<AfsArchive>,
    external_awbs: &Vec<AfsArchive>,
) -> (r: Result<Option<(Vec<u8>, u16)>, ExtractError>)
    requires
        archives_wf(*embedded_awb, external_awbs@),
    ensures
        match track_data(track@, archives(*embedded_awb, external_awbs@)) {
            Err(e) => r == Err::<Option<(Vec<u8>, u16)>, ExtractError>(e),
            Ok(None) => r is Ok && r->Ok_0 is None,
            Ok(Some((d, k))) => r is Ok && r->Ok_0 is Some && r->Ok_0->Some_0.0@ == d
                && r->Ok_0->Some_0.1 == k,
        },
{
    let ghost m = archives(*embedded_awb, external_awbs@);
    if track.is_stream {
        if track.stream_awb_id >= 0 && (track.stream_awb_id as usize) < external_awbs.len() {
            let awb = &external_awbs[track.stream_awb_id as usize];
            assert(m.external[track.stream_awb_id as int] == awb@);
            return file_with_subkey(awb, track.wav_id);
        }
    } else if let Some(awb) = embedded_awb {
        return file_with_subkey(awb, track.wav_id);
    }
    Ok(None)
}

/// A file of an archive plus the archive's subkey.
fn file_with_subkey(awb: &AfsArchive, id: i32) -> (r: Result<Option<(Vec<u8>, u16)>, ExtractError>)
    requires
        awb.wf(),
    ensures
        match awb@.file(id) {
            Err(e) => r == Err::<Option<(Vec<u8>, u16)>, ExtractError>(ExtractError::Afs(e)),
            Ok(d) => r is Ok && r->Ok_0 is Some && r->Ok_0->Some_0.0@ == d
                && r->Ok_0->Some_0.1 == awb@.subkey,
        },
{
    match awb.file_data_for_cue_id(id) {
        Ok(data) => Ok(Some((data, awb.subkey_value()))),
        Err(e) => Err(ExtractError::Afs(e)),
    }
}

/// A track extracted to disk together with the metadata needed to decode it.
#[derive(Debug, Clone, PartialEq, Eq)]
pub struct ExtractedTrackFile {
    /// Path of the waveform file, from the target directory on.
    pub path: String,
    /// Cue name of the track (also the file stem).
    pub name: String,
    /// Cue id of the track.
    pub cue_id: i32,
    /// AFS2 subkey of the originating AWB; 0 when the AWB is unencrypted.
    pub subkey: u16,
}

/// A file that a track is written to.
pub struct TrackFileModel {
    pub path: Seq<char>,
    pub name: Seq<char>,
    pub cue_id: i32,
    pub subkey: u16,
    pub data: Seq<u8>,
}

/// What is said of a track's file, and what is written to it.
pub open spec fn track_file_model(f: ExtractedTrackFile, data: Seq<u8>) -> TrackFileModel {
    TrackFileModel { path: f.path@, name: f.name@, cue_id: f.cue_id, subkey: f.subkey, data }
}

/// The file that a track is written to; none where its archive is not there.
pub open spec fn track_file(t: PlayModel, a: ArchivesModel) -> Result<
    Option<TrackFileModel>,
    ExtractError,
> {
    match track_data(t, a) {
        Err(e) => Err(e),
        Ok(None) => Ok(None),
        Ok(Some((data, subkey))) => Ok(
            Some(
                TrackFileModel {
                    path: t.name + file_extension(t.enc_type),
                    name: t.name,
                    cue_id: t.cue_id,
                    subkey,
                    data,
                },
            ),
        ),
    }
}

/// The file that a track is written to and its bytes; nothing where the track's
/// archive is not there.
pub fn extract_single_track_file(
    track: &Track,
    embedded_awb: &Option<AfsArchive>,
    external_awbs: &Vec<AfsArchive>,
) -> (r: Result<Option<(ExtractedTrackFile, Vec<u8>)>, ExtractError>)
    requires
        archives_wf(*embedded_awb, external_awbs@),
    ensures
        match track_file(track@, archives(*embedded_awb, external_awbs@)) {
            Err(e) => r == Err::<Option<(ExtractedTrackFile, Vec<u8>)>, ExtractError>(e),
            Ok(None) => r is Ok && r->Ok_0 is None,
            Ok(Some(f)) => r is Ok && r->Ok_0 is Some && track_file_model(
                r->Ok_0->Some_0.0,
                r->Ok_0->Some_0.1@,
            ) == f,
        },
{
    match get_track_data(track, embedded_awb, external_awbs) {
        Err(e) => Err(e),
        Ok(None) => Ok(None),
        Ok(Some((data, subkey))) => {
            let file = ExtractedTrackFile {
                path: track_file_name(track),
                name: track.name.clone(),
                cue_id: track.cue_id,
                subkey,
            };
            Ok(Some((file, data)))
        },
    }
}

/// Takes all tracks out, in order.
pub fn extract_tracks(
    track_list: &TrackList,
    embedded_awb: &Option<AfsArchive>,
    external_awbs: &Vec<AfsArchive>,
) -> (r: Result<Vec<ExtractedAcbTrack>, ExtractError>)
    requires
        archives_wf(*embedded_awb, external_awbs@),
    ensures
        match extracted(
            track_list@,
            archives(*embedded_awb, external_awbs@),
            track_list@.len(),
        ) {
            Err(e) => r == Err::<Vec<ExtractedAcbTrack>, ExtractError>(e),
            Ok(m) => r is Ok && extracted_models(r->Ok_0@) == m,
        },
{
    let ghost tracks = track_list@;
    let ghost a = archives(*embedded_awb, external_awbs@);
    let mut outputs: Vec<ExtractedAcbTrack> = Vec::new();
    let mut i: usize = 0;
    assert(extracted_models(outputs@) =~= Seq::empty());
    while i < track_list.tracks.len()
        invariant
            i <= track_list.tracks@.len(),
            tracks == track_list@,
            a == archives(*embedded_awb, external_awbs@),
            archives_wf(*embedded_awb, external_awbs@),
            extracted(tracks, a, i as nat) is Ok,
            extracted(tracks, a, i as nat)->Ok_0 == extracted_models(outputs@),
        decreases track_list.tracks@.len() - i,
    {
        let track = &track_list.tracks[i];
        assert(track@ == tracks[i as int]);
        proof {
            if track_data(track@, a) is Err {
                extracted_error_stays(tracks, a, (i + 1) as nat, tracks.len());
            }
        }
        let found = get_track_data(track, embedded_awb, external_awbs)?;
        if let Some((data, subkey)) = found {
            let ghost before = outputs@;
            let out = ExtractedAcbTrack {
                name: track.name.clone(),
                cue_id: track.cue_id,
                extension: track_extension(track),
                data,
                subkey,
            };
            outputs.push(out);
            assert(extracted_models(outputs@) =~= extracted_models(before).push(out@));
        }
        i += 1;
    }
    Ok(outputs)
}

proof fn extracted_error_stays(tracks: Seq<PlayModel>, a: ArchivesModel, n: nat, m: nat)
    requires
        extracted(tracks, a, n) is Err,
        n <= m,
    ensures
        extracted(tracks, a, m) == extracted(tracks, a, n),
    decreases m,
{
    if n < m {
        extracted_error_stays(tracks, a, n, (m - 1) as nat);
    }
}

proof fn unique_error_stays(tracks: Seq<PlayModel>, a: ArchivesModel, n: nat, m: nat)
    requires
        unique(tracks, a, n) is Err,
        n <= m,
    ensures
        unique(tracks, a, m) == unique(tracks, a, n),
    decreases m,
{
    if n < m {
        unique_error_stays(tracks, a, n, (m - 1) as nat);
    }
}

/// The place of a waveform among those taken out.
fn find_key(keys: &Vec<(bool, i32, i32)>, key: (bool, i32, i32)) -> (r: Option<usize>)
    requires
        keys@.no_duplicates(),
    ensures
        match r {
            Some(i) => i < keys@.len() && keys@.contains(key) && keys@.index_of(key) == i,
            None => !keys@.contains(key),
        },
{
    let mut i: usize = 0;
    while i < keys.len()
        invariant
            i <= keys@.len(),
            keys@.no_duplicates(),
            forall|j: int| 0 <= j < i ==> keys@[j] != key,
        decreases keys@.len() - i,
    {
        let k = keys[i];
        if k.0 == key.0 && k.1 == key.1 && k.2 == key.2 {
            assert(keys@[i as int] == key);
            return Some(i);
        }
        i += 1;
    }
    None
}

/// Takes each distinct waveform out once, with the cues that reference it.
pub fn extract_unique(
    track_list: &TrackList,
    embedded_awb: &Option<AfsArchive>,
    external_awbs: &Vec<AfsArchive>,
) -> (r: Result<Vec<UniqueWaveform>, ExtractError>)
    requires
        archives_wf(*embedded_awb, external_awbs@),
    ensures
        match unique(track_list@, archives(*embedded_awb, external_awbs@), track_list@.len()) {
            Err(e) => r == Err::<Vec<UniqueWaveform>, ExtractError>(e),
            Ok(m) => r is Ok && unique_models(r->Ok_0@) == m.waves,
        },
{
    let ghost tracks = track_list@;
    let ghost a = archives(*embedded_awb, external_awbs@);
    let mut keys: Vec<(bool, i32, i32)> = Vec::new();
    let mut out: Vec<UniqueWaveform> = Vec::new();
    let mut i: usize = 0;
    assert(unique_models(out@) =~= Seq::empty());
    assert(keys@ =~= Seq::empty());
    while i < track_list.tracks.len()
        invariant
            i <= track_list.tracks@.len(),
            tracks == track_list@,
            a == archives(*embedded_awb, external_awbs@),
            archives_wf(*embedded_awb, external_awbs@),
            unique(tracks, a, i as nat) is Ok,
            unique(tracks, a, i as nat)->Ok_0.keys == keys@,
            unique(tracks, a, i as nat)->Ok_0.waves == unique_models(out@),
            keys@.len() == out@.len(),
            keys@.no_duplicates(),
        decreases track_list.tracks@.len() - i,
    {
        let track = &track_list.tracks[i];
        assert(track@ == tracks[i as int]);
        proof {
            if unique(tracks, a, (i + 1) as nat) is Err {
                unique_error_stays(tracks, a, (i + 1) as nat, tracks.len());
            }
        }
        let key = (track.is_stream, track.stream_awb_id, track.wav_id);
        let cue = AcbCueRef { name: track.name.clone(), cue_id: track.cue_id };
        let ghost before = out@;
        match find_key(&keys, key) {
            Some(idx) => {
                out[idx].cues.push(cue);
                assert(cue_models(out@[idx as int].cues@) =~= cue_models(before[idx as int].cues@).push(
                    (cue.name@, cue.cue_id),
                ));
                assert(unique_models(out@) =~= unique_models(before).update(
                    idx as int,
                    out@[idx as int]@,
                ));
            },
            None => {
                let found = get_track_data(track, embedded_awb, external_awbs)?;
                if let Some((data, subkey)) = found {
                    let mut cues: Vec<AcbCueRef> = Vec::new();
                    cues.push(cue);
                    assert(cue_models(cues@) =~= seq![(cue.name@, cue.cue_id)]);
                    keys.push(key);
                    assert(keys@.no_duplicates());
                    let w = UniqueWaveform {
                        extension: track_extension(track),
                        subkey,
                        data,
                        cues,
                    };
                    out.push(w);
                    assert(unique_models(out@) =~= unique_models(before).push(w@));
                }
            },
        }
        i += 1;
    }
    Ok(out)
}

/// A table without a first row is no ACB; otherwise its first row holds the
/// embedded archive.
pub open spec fn acb_archive(d: Seq<u8>, pos: nat) -> Result<Option<ArchiveModel>, ExtractError> {
    match utf_table(d, pos) {
        Err(e) => Err(ExtractError::Utf(e)),
        Ok(t) => if t.rows.len() == 0 {
            Err(ExtractError::InvalidAcb)
        } else {
            Ok(embedded_archive(t.rows[0]))
        },
    }
}

/// Reads an ACB and moves its embedded archive out.
fn open_acb(acb_file: Cursor) -> (r: Result<Option<AfsArchive>, ExtractError>)
    requires
        addressable(acb_file.data().len()),
    ensures
        match acb_archive(acb_file.data(), acb_file.pos()) {
            Err(e) => r == Err::<Option<AfsArchive>, ExtractError>(e),
            Ok(None) => r is Ok && r->Ok_0 is None,
            Ok(Some(a)) => r is Ok && r->Ok_0 is Some && r->Ok_0->Some_0@ == a
                && r->Ok_0->Some_0.wf(),
        },
{
    let mut utf = match UtfTable::new(acb_file) {
        Ok(t) => t,
        Err(e) => {
            return Err(ExtractError::Utf(e));
        },
    };
    if utf.rows.len() == 0 {
        return Err(ExtractError::InvalidAcb);
    }
    assert(utf@.rows[0] == entries(utf.rows@[0]));
    Ok(load_embedded_awb(&mut utf.rows[0]))
}

/// What taking an ACB apart gives, for a list of its tracks and its external
/// archives.
pub open spec fn acb_archives(d: Seq<u8>, pos: nat, external: Seq<AfsArchive>) -> Result<
    ArchivesModel,
    ExtractError,
> {
    match acb_archive(d, pos) {
        Err(e) => Err(e),
        Ok(embedded) => Ok(ArchivesModel { embedded, external: archive_models(external) }),
    }
}

/// Extract all audio tracks from an ACB into memory. The tracks and the
/// external archives are those of the same ACB.
pub fn extract_acb_to_memory(
    acb_file: Cursor,
    track_list: &TrackList,
    external_awbs: &Vec<AfsArchive>,
) -> (r: Result<Vec<ExtractedAcbTrack>, ExtractError>)
    requires
        addressable(acb_file.data().len()),
        archives_wf(None, external_awbs@),
    ensures
        match acb_archives(acb_file.data(), acb_file.pos(), external_awbs@) {
            Err(e) => r == Err::<Vec<ExtractedAcbTrack>, ExtractError>(e),
            Ok(a) => match extracted(track_list@, a, track_list@.len()) {
                Err(e) => r == Err::<Vec<ExtractedAcbTrack>, ExtractError>(e),
                Ok(m) => r is Ok && extracted_models(r->Ok_0@) == m,
            },
        },
{
    let embedded = open_acb(acb_file)?;
    extract_tracks(track_list, &embedded, external_awbs)
}

/// Extract each distinct waveform from an ACB exactly once, together with the
/// cues that reference it.
pub fn extract_acb_unique_to_memory(
    acb_file: Cursor,
    track_list: &TrackList,
    external_awbs: &Vec<AfsArchive>,
) -> (r: Result<Vec<UniqueWaveform>, ExtractError>)
    requires
        addressable(acb_file.data().len()),
        archives_wf(None, external_awbs@),
    ensures
        match acb_archives(acb_file.data(), acb_file.pos(), external_awbs@) {
            Err(e) => r == Err::<Vec<UniqueWaveform>, ExtractError>(e),
            Ok(a) => match unique(track_list@, a, track_list@.len()) {
                Err(e) => r == Err::<Vec<UniqueWaveform>, ExtractError>(e),
                Ok(m) => r is Ok && unique_models(r->Ok_0@) == m.waves,
            },
        },
{
    let embedded = open_acb(acb_file)?;
    extract_unique(track_list, &embedded, external_awbs)
}

/// Whether bytes can be an ACB: a whole table header behind the `@UTF` letters.
pub fn is_acb(data: &[u8]) -> (r: bool)
    ensures
        r == (data@.len() >= 32 && data@[0] == 0x40 && data@[1] == 0x55 && data@[2] == 0x54
            && data@[3] == 0x46),
{
    data.len() >= 32 && data[0] == 0x40 && data[1] == 0x55 && data[2] == 0x54 && data[3] == 0x46
}

} // verus!
