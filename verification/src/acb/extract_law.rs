//! What extracted tracks, the files they are written to and distinct waveforms
//! have to do with each other.

use vstd::multiset::Multiset;
use vstd::prelude::*;
use crate::acb::consts::extension_of;
use crate::acb::extractor::{
    archive_for, extension_text, extracted, file_extension, track_data, track_file, unique,
    wave_key, with_track, ArchivesModel, ExtractError, ExtractedModel, PlayModel, TrackFileModel,
    UniqueModel, UniqueState, WaveKey,
};

verus! {

/// Every waveform is taken out once.
pub proof fn unique_once(tracks: Seq<PlayModel>, a: ArchivesModel, n: nat)
    requires
        n <= tracks.len(),
        unique(tracks, a, n) is Ok,
    ensures
        unique(tracks, a, n)->Ok_0.keys.no_duplicates(),
        unique(tracks, a, n)->Ok_0.keys.len() == unique(tracks, a, n)->Ok_0.waves.len(),
    decreases n,
{
    if n > 0 {
        unique_once(tracks, a, (n - 1) as nat);
    }
}

/// Every track whose archive is there is named among the cues of its waveform.
pub proof fn unique_names_all(tracks: Seq<PlayModel>, a: ArchivesModel, n: nat, i: int)
    requires
        0 <= i < n <= tracks.len(),
        unique(tracks, a, n) is Ok,
        archive_for(tracks[i], a) is Some,
    ensures
        ({
            let st = unique(tracks, a, n)->Ok_0;
            let k = st.keys.index_of(wave_key(tracks[i]));
            &&& st.keys.contains(wave_key(tracks[i]))
            &&& st.waves[k].cues.contains((tracks[i].name, tracks[i].cue_id))
        }),
    decreases n,
{
    let m = (n - 1) as nat;
    let st = unique(tracks, a, n)->Ok_0;
    let was = unique(tracks, a, m)->Ok_0;
    let key = wave_key(tracks[i]);
    let cue = (tracks[i].name, tracks[i].cue_id);
    unique_once(tracks, a, m);
    unique_once(tracks, a, n);
    if i == m {
        if was.keys.contains(key) {
            let k = was.keys.index_of(key);
            let c = was.waves[k].cues.push(cue);
            assert(c[c.len() - 1] == cue);
            assert(st.waves[k].cues == c);
        } else {
            assert(st.keys[st.keys.len() - 1] == key);
            let c = st.waves[st.waves.len() - 1].cues;
            assert(c[0] == cue);
        }
    } else {
        unique_names_all(tracks, a, m, i);
        let k = was.keys.index_of(key);
        assert(was.keys[k] == key);
        assert(st.keys[k] == key);
        let x = choose|x: int|
            0 <= x < was.waves[k].cues.len() && was.waves[k].cues[x] == cue;
        assert(st.waves[k].cues[x] == cue);
    }
}

/// The cues of the first `m` waveforms, taken together.
pub open spec fn cues_together(waves: Seq<UniqueModel>, m: nat) -> Multiset<(Seq<char>, i32)>
    decreases m,
{
    if m == 0 {
        Multiset::empty()
    } else {
        cues_together(waves, (m - 1) as nat).add(waves[m - 1].cues.to_multiset())
    }
}

/// The names and ids of extracted tracks.
pub open spec fn cues_of(out: Seq<ExtractedModel>) -> Seq<(Seq<char>, i32)> {
    out.map_values(|t: ExtractedModel| (t.name, t.cue_id))
}

/// Whether a cue is that of an extracted track with the data and the subkey of
/// a waveform.
pub open spec fn cue_stands(
    out: Seq<ExtractedModel>,
    w: UniqueModel,
    cue: (Seq<char>, i32),
) -> bool {
    exists|j: int|
        0 <= j < out.len() && (#[trigger] out[j]).name == cue.0 && out[j].cue_id == cue.1
            && out[j].data == w.data && out[j].subkey == w.subkey
}

proof fn cue_joins(waves: Seq<UniqueModel>, i: int, cue: (Seq<char>, i32), m: nat)
    requires
        0 <= i < waves.len(),
        m <= waves.len(),
    ensures
        ({
            let w = waves[i];
            let after = waves.update(i, UniqueModel { cues: w.cues.push(cue), ..w });
            cues_together(after, m) == if i < m {
                cues_together(waves, m).insert(cue)
            } else {
                cues_together(waves, m)
            }
        }),
    decreases m,
{
    broadcast use vstd::seq_lib::group_to_multiset_ensures;

    let w = waves[i];
    let after = waves.update(i, UniqueModel { cues: w.cues.push(cue), ..w });
    if m > 0 {
        cue_joins(waves, i, cue, (m - 1) as nat);
        if i < m {
            assert(cues_together(after, m) =~= cues_together(waves, m).insert(cue));
        }
    }
}

proof fn cues_of_front(waves: Seq<UniqueModel>, w: UniqueModel, m: nat)
    requires
        m <= waves.len(),
    ensures
        cues_together(waves.push(w), m) == cues_together(waves, m),
    decreases m,
{
    if m > 0 {
        cues_of_front(waves, w, (m - 1) as nat);
    }
}

proof fn cue_still_stands(
    out: Seq<ExtractedModel>,
    more: ExtractedModel,
    w: UniqueModel,
    cue: (Seq<char>, i32),
)
    requires
        cue_stands(out, w, cue),
    ensures
        cue_stands(out.push(more), w, cue),
{
    let j = choose|j: int|
        0 <= j < out.len() && (#[trigger] out[j]).name == cue.0 && out[j].cue_id == cue.1
            && out[j].data == w.data && out[j].subkey == w.subkey;
    assert(out.push(more)[j] == out[j]);
}

/// Whether distinct waveforms hold what extracted tracks hold: each waveform at
/// least one cue, each cue standing for one track with the waveform's data, and
/// all cues together those of the tracks, each as often.
pub open spec fn shares_out(st: UniqueState, out: Seq<ExtractedModel>) -> bool {
    &&& st.keys.no_duplicates()
    &&& st.keys.len() == st.waves.len()
    &&& cues_together(st.waves, st.waves.len()) == cues_of(out).to_multiset()
    &&& forall|k: int| 0 <= k < st.waves.len() ==> (#[trigger] st.waves[k]).cues.len() > 0
    &&& forall|k: int, c: int|
        0 <= k < st.waves.len() && 0 <= c < st.waves[k].cues.len() ==> cue_stands(
            out,
            st.waves[k],
            #[trigger] st.waves[k].cues[c],
        )
}

/// Whether the data of every track with a known key is that of its waveform.
spec fn keys_tell(st: UniqueState, a: ArchivesModel) -> bool {
    forall|t: PlayModel|
        st.keys.contains(#[trigger] wave_key(t)) ==> track_data(t, a) == Ok::<
            Option<(Seq<u8>, u16)>,
            ExtractError,
        >(
            Some(
                (
                    st.waves[st.keys.index_of(wave_key(t))].data,
                    st.waves[st.keys.index_of(wave_key(t))].subkey,
                ),
            ),
        )
}

proof fn track_shared(
    st: UniqueState,
    out: Seq<ExtractedModel>,
    t: PlayModel,
    a: ArchivesModel,
    data: Seq<u8>,
    subkey: u16,
)
    requires
        shares_out(st, out),
        keys_tell(st, a),
        track_data(t, a) == Ok::<Option<(Seq<u8>, u16)>, ExtractError>(Some((data, subkey))),
    ensures
        with_track(st, t, a) is Ok,
        shares_out(
            with_track(st, t, a)->Ok_0,
            out.push(
                ExtractedModel {
                    name: t.name,
                    cue_id: t.cue_id,
                    extension: extension_text(t.enc_type),
                    data,
                    subkey,
                },
            ),
        ),
        keys_tell(with_track(st, t, a)->Ok_0, a),
{
    broadcast use vstd::seq_lib::group_to_multiset_ensures;

    let key = wave_key(t);
    let cue = (t.name, t.cue_id);
    let more = ExtractedModel {
        name: t.name,
        cue_id: t.cue_id,
        extension: extension_text(t.enc_type),
        data,
        subkey,
    };
    let then = with_track(st, t, a)->Ok_0;
    let all = out.push(more);
    assert(cues_of(all) =~= cues_of(out).push(cue));
    assert(all[out.len() as int] == more);
    if st.keys.contains(key) {
        let i = st.keys.index_of(key);
        cue_joins(st.waves, i, cue, st.waves.len());
        assert(keys_tell(then, a)) by {
            assert forall|u: PlayModel| then.keys.contains(#[trigger] wave_key(u)) implies track_data(
                u,
                a,
            ) == Ok::<Option<(Seq<u8>, u16)>, ExtractError>(
                Some(
                    (
                        then.waves[then.keys.index_of(wave_key(u))].data,
                        then.waves[then.keys.index_of(wave_key(u))].subkey,
                    ),
                ),
            ) by {
                assert(st.keys.contains(wave_key(u)));
            }
        }
        assert forall|k: int, c: int|
            0 <= k < then.waves.len() && 0 <= c < then.waves[k].cues.len() implies cue_stands(
            all,
            then.waves[k],
            #[trigger] then.waves[k].cues[c],
        ) by {
            if c < st.waves[k].cues.len() {
                assert(then.waves[k].cues[c] == st.waves[k].cues[c]);
                assert(cue_stands(out, st.waves[k], st.waves[k].cues[c]));
                cue_still_stands(out, more, st.waves[k], st.waves[k].cues[c]);
            } else {
                assert(then.waves[k].cues[c] == cue);
            }
        }
    } else {
        let w = then.waves[st.waves.len() as int];
        let n = then.waves.len();
        cues_of_front(st.waves, w, st.waves.len());
        assert(w.cues =~= Seq::empty().push(cue));
        assert(cues_together(then.waves, n) =~= cues_together(st.waves, st.waves.len()).insert(
            cue,
        ));
        assert(keys_tell(then, a)) by {
            assert forall|u: PlayModel| then.keys.contains(#[trigger] wave_key(u)) implies track_data(
                u,
                a,
            ) == Ok::<Option<(Seq<u8>, u16)>, ExtractError>(
                Some(
                    (
                        then.waves[then.keys.index_of(wave_key(u))].data,
                        then.waves[then.keys.index_of(wave_key(u))].subkey,
                    ),
                ),
            ) by {
                let at = then.keys.index_of(wave_key(u));
                assert(then.keys[at] == wave_key(u));
                if wave_key(u) == key {
                    assert(track_data(u, a) == track_data(t, a));
                    assert(then.keys[st.keys.len() as int] == key);
                    assert(at == st.keys.len());
                } else {
                    assert(at < st.keys.len());
                    assert(st.keys[at] == wave_key(u));
                    assert(st.keys.contains(wave_key(u)));
                    assert(st.keys.index_of(wave_key(u)) == at);
                }
            }
        }
        assert forall|k: int, c: int|
            0 <= k < then.waves.len() && 0 <= c < then.waves[k].cues.len() implies cue_stands(
            all,
            then.waves[k],
            #[trigger] then.waves[k].cues[c],
        ) by {
            if k < st.waves.len() {
                assert(then.waves[k] == st.waves[k]);
                assert(cue_stands(out, st.waves[k], st.waves[k].cues[c]));
                cue_still_stands(out, more, st.waves[k], st.waves[k].cues[c]);
            } else {
                assert(then.waves[k].cues[c] == cue);
            }
        }
    }
}

proof fn unique_shared(tracks: Seq<PlayModel>, a: ArchivesModel, n: nat)
    requires
        n <= tracks.len(),
    ensures
        match (unique(tracks, a, n), extracted(tracks, a, n)) {
            (Ok(st), Ok(out)) => shares_out(st, out) && keys_tell(st, a),
            (Err(e), Err(f)) => e == f,
            _ => false,
        },
    decreases n,
{
    if n == 0 {
        let st = unique(tracks, a, 0)->Ok_0;
        let out = extracted(tracks, a, 0)->Ok_0;
        broadcast use vstd::seq_lib::group_to_multiset_ensures;

        assert(cues_of(out) =~= Seq::empty());
        assert(cues_of(out).to_multiset() =~= Multiset::empty());
    } else {
        let m = (n - 1) as nat;
        unique_shared(tracks, a, m);
        if unique(tracks, a, m) is Ok {
            let st = unique(tracks, a, m)->Ok_0;
            let out = extracted(tracks, a, m)->Ok_0;
            let t = tracks[n - 1];
            match track_data(t, a) {
                Ok(Some((data, subkey))) => {
                    track_shared(st, out, t, a, data, subkey);
                },
                _ => {
                    assert(!st.keys.contains(wave_key(t)));
                },
            }
        }
    }
}

/// Extracting tracks and extracting distinct waveforms fail alike. Where they
/// do not, the cues of all waveforms are the extracted tracks, each standing
/// once, under a waveform with its data and subkey.
pub proof fn unique_shares_out(tracks: Seq<PlayModel>, a: ArchivesModel, n: nat)
    requires
        n <= tracks.len(),
    ensures
        match (unique(tracks, a, n), extracted(tracks, a, n)) {
            (Ok(st), Ok(out)) => shares_out(st, out),
            (Err(e), Err(f)) => e == f,
            _ => false,
        },
{
    unique_shared(tracks, a, n);
}

/// The first of the first `n` tracks that plays a waveform; `n` where none
/// does.
pub open spec fn first_with_key(tracks: Seq<PlayModel>, key: WaveKey, n: nat) -> nat
    decreases n,
{
    if n == 0 {
        0
    } else {
        let before = first_with_key(tracks, key, (n - 1) as nat);
        if before < n - 1 || wave_key(tracks[n - 1]) == key { before } else { n }
    }
}

proof fn first_is_within(tracks: Seq<PlayModel>, key: WaveKey, n: nat)
    ensures
        first_with_key(tracks, key, n) <= n,
    decreases n,
{
    if n > 0 {
        first_is_within(tracks, key, (n - 1) as nat);
    }
}

/// Distinct waveforms come in the order of the first tracks that play them.
pub proof fn unique_in_order(tracks: Seq<PlayModel>, a: ArchivesModel, n: nat)
    requires
        n <= tracks.len(),
        unique(tracks, a, n) is Ok,
    ensures
        ({
            let keys = unique(tracks, a, n)->Ok_0.keys;
            &&& forall|k: int|
                0 <= k < keys.len() ==> first_with_key(tracks, #[trigger] keys[k], n) < n
            &&& forall|j: int, k: int|
                0 <= j < k < keys.len() ==> first_with_key(tracks, #[trigger] keys[j], n)
                    < first_with_key(tracks, #[trigger] keys[k], n)
        }),
    decreases n,
{
    if n > 0 {
        let m = (n - 1) as nat;
        unique_in_order(tracks, a, m);
        let was = unique(tracks, a, m)->Ok_0.keys;
        let keys = unique(tracks, a, n)->Ok_0.keys;
        let key = wave_key(tracks[n - 1]);
        first_is_within(tracks, key, m);
        assert forall|k: int| 0 <= k < was.len() implies first_with_key(tracks, keys[k], n)
            == first_with_key(tracks, #[trigger] was[k], m) by {
            assert(keys[k] == was[k]);
        }
        if keys.len() > was.len() {
            first_missing(tracks, a, m, key);
            assert(keys[was.len() as int] == key);
        }
        assert forall|k: int| 0 <= k < keys.len() implies first_with_key(
            tracks,
            #[trigger] keys[k],
            n,
        ) < n by {
            if k < was.len() {
                assert(first_with_key(tracks, was[k], m) < m);
            }
        }
        assert forall|j: int, k: int| 0 <= j < k < keys.len() implies first_with_key(
            tracks,
            #[trigger] keys[j],
            n,
        ) < first_with_key(tracks, #[trigger] keys[k], n) by {
            assert(first_with_key(tracks, was[j], m) < m);
            if k < was.len() {
                assert(first_with_key(tracks, was[j], m) < first_with_key(tracks, was[k], m));
            }
        }
    }
}

/// A waveform whose archive is there and that is not known has no track yet.
proof fn first_missing(tracks: Seq<PlayModel>, a: ArchivesModel, n: nat, key: WaveKey)
    requires
        n <= tracks.len(),
        unique(tracks, a, n) is Ok,
        !unique(tracks, a, n)->Ok_0.keys.contains(key),
        exists|t: PlayModel| #[trigger] wave_key(t) == key && archive_for(t, a) is Some,
    ensures
        first_with_key(tracks, key, n) == n,
    decreases n,
{
    if n > 0 {
        let m = (n - 1) as nat;
        let was = unique(tracks, a, m)->Ok_0.keys;
        let now = unique(tracks, a, n)->Ok_0.keys;
        if was.contains(key) {
            let k = was.index_of(key);
            assert(now[k] == key);
        }
        first_missing(tracks, a, m, key);
        let t = choose|t: PlayModel| #[trigger] wave_key(t) == key && archive_for(t, a) is Some;
        if wave_key(tracks[n - 1]) == key {
            assert(archive_for(tracks[n - 1], a) == archive_for(t, a));
            assert(now[now.len() - 1] == key);
        }
    }
}

/// The files of the first `n` tracks, or the first error among them.
pub open spec fn track_files(tracks: Seq<PlayModel>, a: ArchivesModel, n: nat) -> Result<
    Seq<TrackFileModel>,
    ExtractError,
>
    decreases n,
{
    if n == 0 {
        Ok(Seq::empty())
    } else {
        match track_files(tracks, a, (n - 1) as nat) {
            Err(e) => Err(e),
            Ok(out) => match track_file(tracks[n - 1], a) {
                Err(e) => Err(e),
                Ok(None) => Ok(out),
                Ok(Some(f)) => Ok(out.push(f)),
            },
        }
    }
}

/// What a directory holds after `n` files were written to it, by path.
pub open spec fn directory_after(files: Seq<TrackFileModel>, n: nat) -> Map<Seq<char>, Seq<u8>>
    decreases n,
{
    if n == 0 {
        Map::empty()
    } else {
        directory_after(files, (n - 1) as nat).insert(files[n - 1].path, files[n - 1].data)
    }
}

/// Whether a file is the one of an extracted track: its name, a dot and its
/// extension, with its data.
pub open spec fn file_of_track(f: TrackFileModel, t: ExtractedModel) -> bool {
    &&& f.path == t.name + seq!['.'] + t.extension
    &&& f.name == t.name
    &&& f.cue_id == t.cue_id
    &&& f.subkey == t.subkey
    &&& f.data == t.data
}

proof fn extension_with_dot(enc_type: i32)
    ensures
        file_extension(enc_type) == seq!['.'] + extension_text(enc_type),
{
    reveal_strlit("");
    reveal_strlit(".adx");
    reveal_strlit(".hca");
    reveal_strlit(".vag");
    reveal_strlit(".at3");
    reveal_strlit(".bcwav");
    reveal_strlit(".at9");
    reveal_strlit(".dsp");
    let ext = extension_of(enc_type);
    assert(ext.len() > 0 ==> ext[0] == '.');
    assert(file_extension(enc_type) =~= seq!['.'] + extension_text(enc_type));
}

/// Tracks written to files and tracks extracted into memory fail alike. Where
/// they do not, there is one file for each extracted track, in the same order.
pub proof fn files_are_tracks(tracks: Seq<PlayModel>, a: ArchivesModel, n: nat)
    requires
        n <= tracks.len(),
    ensures
        match (track_files(tracks, a, n), extracted(tracks, a, n)) {
            (Ok(files), Ok(out)) => {
                &&& files.len() == out.len()
                &&& forall|i: int|
                    0 <= i < files.len() ==> file_of_track(#[trigger] files[i], out[i])
            },
            (Err(e), Err(f)) => e == f,
            _ => false,
        },
    decreases n,
{
    if n > 0 {
        files_are_tracks(tracks, a, (n - 1) as nat);
        let t = tracks[n - 1];
        extension_with_dot(t.enc_type);
        assert(t.name + file_extension(t.enc_type) =~= t.name + seq!['.'] + extension_text(
            t.enc_type,
        ));
    }
}

/// A directory holds the files that were written to it and no others: under
/// each path the data of the last file of that path.
pub proof fn last_file_stays(files: Seq<TrackFileModel>, n: nat)
    requires
        n <= files.len(),
    ensures
        ({
            let dir = directory_after(files, n);
            &&& forall|i: int| 0 <= i < n ==> dir.contains_key((#[trigger] files[i]).path)
            &&& forall|path: Seq<char>| #[trigger]
                dir.contains_key(path) ==> exists|i: int|
                    0 <= i < n && (#[trigger] files[i]).path == path && dir[path] == files[i].data
                        && forall|j: int| i < j < n ==> (#[trigger] files[j]).path != path
        }),
    decreases n,
{
    if n > 0 {
        let m = (n - 1) as nat;
        last_file_stays(files, m);
        let was = directory_after(files, m);
        let dir = directory_after(files, n);
        assert forall|path: Seq<char>| #[trigger] dir.contains_key(path) implies exists|i: int|
            0 <= i < n && (#[trigger] files[i]).path == path && dir[path] == files[i].data
                && forall|j: int| i < j < n ==> (#[trigger] files[j]).path != path by {
            if path == files[n - 1].path {
                assert(files[n - 1].path == path && dir[path] == files[n - 1].data);
            } else {
                assert(was.contains_key(path));
                let i = choose|i: int|
                    0 <= i < m && (#[trigger] files[i]).path == path && was[path] == files[i].data
                        && forall|j: int| i < j < m ==> (#[trigger] files[j]).path != path;
                assert(files[i].path == path && dir[path] == files[i].data);
                assert forall|j: int| i < j < n implies (#[trigger] files[j]).path != path by {
                    if j < m {
                        assert(files[j].path != path);
                    }
                }
            }
        }
    }
}

} // verus!
