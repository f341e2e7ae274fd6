//! What is taken out of a built sheet.

use vstd::prelude::*;
use crate::acb::afs::archive_of;
use crate::acb::extractor::{
    acb_archive, archive_for, awb_names, embedded_archive, extension_text, external_names,
    extracted, track_data, ArchivesModel, ExtractError, PlayModel,
};
use crate::acb::sheet_law::{ids_differ, sheet_reads_back, streamed_archive_reads_back};
use crate::acb::sheet_model::AcbModel;
use crate::acb::utf::{int_field, utf_table, ValueModel};
use crate::acb::walk_law::Row;

verus! {

/// Track `i` of a sheet as a list of its tracks names it: its waveform has the
/// id of its cue.
pub open spec fn play_of(m: AcbModel, i: int) -> PlayModel {
    let t = m.tracks[i];
    PlayModel {
        name: t.name,
        cue_id: t.cue_id as i32,
        wav_id: t.cue_id as i32,
        enc_type: t.encode_type,
        is_stream: m.streaming,
        stream_awb_id: 0,
    }
}

/// All tracks of a sheet.
pub open spec fn plays_of(m: AcbModel) -> Seq<PlayModel> {
    Seq::new(m.tracks.len(), |i: int| play_of(m, i))
}

/// The archives of a built sheet: the one inside, and the one beside it.
pub open spec fn archives_of_sheet(m: AcbModel) -> ArchivesModel {
    ArchivesModel {
        embedded: match acb_archive(m.acb_bytes(), 0) {
            Ok(a) => a,
            Err(_) => None,
        },
        external: if m.streaming { seq![archive_of(m.awb_bytes())->Ok_0] } else { Seq::empty() },
    }
}

proof fn one_track_comes_out(m: AcbModel, i: int)
    requires
        m.music is None,
        m.error() is None,
        m.fits(),
        0 <= i < m.tracks.len(),
    ensures
        track_data(play_of(m, i), archives_of_sheet(m)) == Ok::<
            Option<(Seq<u8>, u16)>,
            ExtractError,
        >(Some((m.tracks[i].data, 0))),
{
    ids_differ(m.tracks, 0);
    if m.streaming {
        streamed_archive_reads_back(m, i);
    } else {
        sheet_reads_back(m, i);
    }
}

proof fn tracks_come_out(m: AcbModel, n: nat)
    requires
        m.music is None,
        m.error() is None,
        m.fits(),
        n <= m.tracks.len(),
    ensures
        ({
            let r = extracted(plays_of(m), archives_of_sheet(m), n);
            &&& r is Ok
            &&& r->Ok_0.len() == n
            &&& forall|i: int|
                0 <= i < n ==> {
                    let x = #[trigger] r->Ok_0[i];
                    let t = m.tracks[i];
                    &&& x.data == t.data
                    &&& x.name == t.name
                    &&& x.cue_id == t.cue_id
                    &&& x.subkey == 0
                    &&& x.extension == extension_text(t.encode_type)
                }
        }),
    decreases n,
{
    if n > 0 {
        tracks_come_out(m, (n - 1) as nat);
        one_track_comes_out(m, n - 1);
        ids_differ(m.tracks, 0);
        assert(plays_of(m)[n - 1] == play_of(m, n - 1));
    }
}

/// What goes into a sheet comes out: the tracks of a built sheet, embedded or
/// streamed, are extracted in their order, each with its name, its cue id, its
/// data and the extension of its format.
pub proof fn built_tracks_come_out(m: AcbModel, i: int)
    requires
        m.music is None,
        m.error() is None,
        m.fits(),
        0 <= i < m.tracks.len(),
    ensures
        ({
            let r = extracted(plays_of(m), archives_of_sheet(m), m.tracks.len());
            let x = r->Ok_0[i];
            let t = m.tracks[i];
            &&& r is Ok
            &&& r->Ok_0.len() == m.tracks.len()
            &&& x.data == t.data
            &&& x.name == t.name
            &&& x.cue_id == t.cue_id
            &&& x.subkey == 0
            &&& x.extension == extension_text(t.encode_type)
        }),
{
    tracks_come_out(m, m.tracks.len());
}

/// A streamed track lies in the external archive of its number, and another
/// track in the embedded one. Where that archive is missing the track is left
/// out.
pub proof fn tracks_lie_in_their_archives(t: PlayModel, a: ArchivesModel)
    ensures
        !t.is_stream ==> archive_for(t, a) == a.embedded,
        t.is_stream && 0 <= t.stream_awb_id < a.external.len() ==> archive_for(t, a) == Some(
            a.external[t.stream_awb_id as int],
        ),
        t.is_stream && !(0 <= t.stream_awb_id < a.external.len()) ==> archive_for(t, a) is None,
        archive_for(t, a) is None ==> track_data(t, a) == Ok::<
            Option<(Seq<u8>, u16)>,
            ExtractError,
        >(None),
{
}

/// The whole number that a cell holds; zero where there is no cell of that
/// name, or none with a whole number.
pub proof fn cells_give_numbers(
    row: Row,
    key: Seq<char>,
    a: u8,
    b: i8,
    c: u16,
    d: i16,
    e: u32,
    f: i32,
    g: u64,
)
    ensures
        !row.contains_key(key) ==> int_field(row, key) == 0,
        int_field(row.insert(key, ValueModel::U8(a)), key) == a,
        int_field(row.insert(key, ValueModel::I8(b)), key) == b,
        int_field(row.insert(key, ValueModel::U16(c)), key) == c,
        int_field(row.insert(key, ValueModel::I16(d)), key) == d,
        int_field(row.insert(key, ValueModel::U32(e)), key) == e,
        int_field(row.insert(key, ValueModel::I32(f)), key) == f,
        int_field(row.insert(key, ValueModel::U64(g)), key) == if g < 0x8000_0000_0000_0000 {
            g as int
        } else {
            g - 0x1_0000_0000_0000_0000
        },
        int_field(row.insert(key, ValueModel::String(Seq::empty())), key) == 0,
        int_field(row.insert(key, ValueModel::Data(Seq::empty())), key) == 0,
{
}

/// Every row with a name names one external archive, in the order of the rows;
/// rows without one name none.
pub proof fn rows_name_archives(rows: Seq<Row>, n: nat)
    requires
        n < rows.len(),
    ensures
        ({
            let before = awb_names(rows, n);
            let after = awb_names(rows, n + 1);
            let row = rows[n as int];
            let named = row.contains_key("Name"@) && row["Name"@] is String;
            &&& awb_names(rows, 0).len() == 0
            &&& !named ==> after == before
            &&& named ==> after.len() == before.len() + 1
            &&& named ==> after.last() == row["Name"@]->String_0 + seq!['.', 'a', 'w', 'b']
            &&& named ==> after.drop_last() == before
        }),
{
    reveal_strlit(".awb");
    assert(".awb"@ =~= seq!['.', 'a', 'w', 'b']);
    let before = awb_names(rows, n);
    let after = awb_names(rows, n + 1);
    let row = rows[n as int];
    if row.contains_key("Name"@) && row["Name"@] is String {
        assert(after.drop_last() =~= before);
    }
}

/// The external archives of a sheet are named by the table in its cell
/// `StreamAwbHash`, and its embedded archive lies in its cell `AwbFile`.
pub proof fn sheets_tell_archives(row: Row, d: Seq<u8>)
    requires
        d.len() > 0,
    ensures
        ({
            let named = row.insert("StreamAwbHash"@, ValueModel::Data(d));
            let held = row.insert("AwbFile"@, ValueModel::Data(d));
            let none = Seq::<Seq<char>>::empty();
            &&& utf_table(d, 0) is Ok ==> external_names(named) == awb_names(
                utf_table(d, 0)->Ok_0.rows,
                utf_table(d, 0)->Ok_0.rows.len(),
            )
            &&& utf_table(d, 0) is Err ==> external_names(named) == none
            &&& !row.contains_key("StreamAwbHash"@) ==> external_names(row) == none
            &&& archive_of(d) is Ok ==> embedded_archive(held) == Some(archive_of(d)->Ok_0)
            &&& archive_of(d) is Err ==> embedded_archive(held) is None
            &&& !row.contains_key("AwbFile"@) ==> embedded_archive(row) is None
        }),
{
}

} // verus!
