//! What a built movie holds.

use vstd::prelude::*;
use crate::acb::utf::wrap32;
use crate::usm::builder::{
    audio_payload, chunk_bytes, chunk_count, end_marker, longest, longest_bounds, padded, piece,
    video_payload, with_audio_chunk, with_audio_chunks, with_end_markers, with_rounds,
    with_stream_data, with_video_chunk, CHUNK_SIZE, END, SBA, SBV,
};
use crate::usm::cell_law::{built_chunk_tells, built_payloads_open, four, two};
use crate::usm::mask::{audio_mask_bytes, audio_masked, mask_bytes, tail_mask_bytes, video_unmasked};

verus! {

/// The letters of a chunk of video data.
pub open spec fn video_data_letters() -> Seq<u8> {
    seq![0x40u8, 0x53, 0x42, 0x56]
}

/// The letters of a chunk of audio data.
pub open spec fn audio_data_letters() -> Seq<u8> {
    seq![0x40u8, 0x53, 0x42, 0x41]
}

/// The letters of an end marker.
pub open spec fn last_letters() -> Seq<u8> {
    seq![0x40u8, 0x45, 0x4e, 0x44]
}

/// What a chunk holds, without the mask of a key.
pub open spec fn unlocked(b: Seq<u8>, letters: Seq<u8>, key: Option<u64>) -> Seq<u8> {
    match key {
        None => b,
        Some(k) => if letters == video_data_letters() {
            video_unmasked(b, mask_bytes(k), tail_mask_bytes(k))
        } else {
            audio_masked(b, audio_mask_bytes(k))
        },
    }
}

/// Where a chunk of a built movie ends: behind its letters and as many bytes as
/// it says.
pub open spec fn chunk_end(d: Seq<u8>, pos: int) -> int {
    pos + 4 + four(d, pos + 4)
}

/// The next multiple of 32.
pub open spec fn aligned(n: int) -> int {
    (n + 31) / 32 * 32
}

/// What the chunks of a built movie from a place on hold of a stream, behind
/// what was found of it so far. A chunk belongs to the stream with its letters
/// and its number, and says at which byte of the stream it starts.
pub open spec fn held_of(
    d: Seq<u8>,
    pos: int,
    letters: Seq<u8>,
    stream: int,
    key: Option<u64>,
    found: Seq<u8>,
) -> Seq<u8>
    decreases if pos < d.len() { d.len() - pos } else { 0 },
{
    if pos < 0 || pos + 28 > d.len() || d.subrange(pos, pos + 4) == last_letters() {
        found
    } else {
        let more = if d.subrange(pos, pos + 4) == letters && four(d, pos + 16) == stream && four(
            d,
            pos + 12,
        ) == found.len() % 0x1_0000_0000 {
            unlocked(d.subrange(pos + 28, chunk_end(d, pos)), letters, key)
        } else {
            Seq::empty()
        };
        held_of(d, aligned(chunk_end(d, pos)), letters, stream, key, found + more)
    }
}

/// Whether the chunks from a place on fill the data.
spec fn lands(d: Seq<u8>, pos: int) -> bool
    decreases d.len() - pos,
{
    if pos < 0 || pos >= d.len() {
        pos == d.len()
    } else {
        &&& pos + 28 <= d.len()
        &&& d.subrange(pos, pos + 4) != last_letters()
        &&& pos + 28 <= chunk_end(d, pos) <= d.len()
        &&& aligned(chunk_end(d, pos)) <= d.len()
        &&& lands(d, aligned(chunk_end(d, pos)))
    }
}

proof fn same_words(d: Seq<u8>, e: Seq<u8>, pos: int)
    requires
        d.len() <= e.len(),
        e.subrange(0, d.len() as int) == d,
        0 <= pos,
        pos + 28 <= d.len(),
    ensures
        e.subrange(pos, pos + 4) == d.subrange(pos, pos + 4),
        four(e, pos + 4) == four(d, pos + 4),
        four(e, pos + 12) == four(d, pos + 12),
        four(e, pos + 16) == four(d, pos + 16),
        chunk_end(e, pos) == chunk_end(d, pos),
        pos + 28 <= chunk_end(d, pos) <= d.len() ==> e.subrange(pos + 28, chunk_end(d, pos)) == d.subrange(
            pos + 28,
            chunk_end(d, pos),
        ),
{
    assert forall|j: int| 0 <= j < d.len() implies e[j] == d[j] by {
        assert(e.subrange(0, d.len() as int)[j] == e[j]);
    }
    assert(e.subrange(pos, pos + 4) =~= d.subrange(pos, pos + 4));
    if pos + 28 <= chunk_end(d, pos) <= d.len() {
        assert(e.subrange(pos + 28, chunk_end(d, pos)) =~= d.subrange(pos + 28, chunk_end(d, pos)));
    }
}

/// Chunks behind the ones that were walked add to what was found.
proof fn walk_goes_on(
    d: Seq<u8>,
    e: Seq<u8>,
    pos: int,
    letters: Seq<u8>,
    stream: int,
    key: Option<u64>,
    found: Seq<u8>,
)
    requires
        lands(d, pos),
        0 <= pos,
        d.len() <= e.len(),
        e.subrange(0, d.len() as int) == d,
    ensures
        held_of(e, pos, letters, stream, key, found) == held_of(
            e,
            d.len() as int,
            letters,
            stream,
            key,
            held_of(d, pos, letters, stream, key, found),
        ),
        lands(e, d.len() as int) ==> lands(e, pos),
    decreases d.len() - pos,
{
    if pos < d.len() {
        same_words(d, e, pos);
        let more = if d.subrange(pos, pos + 4) == letters && four(d, pos + 16) == stream && four(
            d,
            pos + 12,
        ) == found.len() % 0x1_0000_0000 {
            unlocked(d.subrange(pos + 28, chunk_end(d, pos)), letters, key)
        } else {
            Seq::empty()
        };
        walk_goes_on(d, e, aligned(chunk_end(d, pos)), letters, stream, key, found + more);
    }
}

/// Whether data is longer than other data by one chunk.
#[verifier::opaque]
spec fn grows_by(
    d: Seq<u8>,
    e: Seq<u8>,
    letters: Seq<u8>,
    payload: Seq<u8>,
    offset: u32,
    stream: u32,
) -> bool {
    let at = d.len() as int;
    &&& e.len() % 32 == 0
    &&& at + 28 + payload.len() <= e.len()
    &&& e.len() == aligned(at + 28 + payload.len())
    &&& e.subrange(0, at) == d
    &&& e.subrange(at, at + 4) == letters
    &&& four(e, at + 4) == payload.len() + 24
    &&& four(e, at + 12) == offset
    &&& four(e, at + 16) == stream
    &&& e.subrange(at + 28, at + 28 + payload.len()) == payload
}

proof fn put_stands(
    d: Seq<u8>,
    c: Seq<u8>,
    letters: Seq<u8>,
    payload: Seq<u8>,
    offset: u32,
    stream: u32,
)
    requires
        d.len() % 32 == 0,
        letters.len() == 4,
        c.len() == 28 + payload.len(),
        c.subrange(0, 4) == letters,
        four(c, 4) == payload.len() + 24,
        four(c, 12) == offset,
        four(c, 16) == stream,
        c.subrange(28, c.len() as int) == payload,
    ensures
        grows_by(d, padded(d + c), letters, payload, offset, stream),
{
    reveal(grows_by);
    let e = padded(d + c);
    let at = d.len() as int;
    assert(e.subrange(0, at) =~= d);
    assert forall|j: int| 0 <= j < c.len() implies e[at + j] == c[j] by {
        assert((d + c)[at + j] == c[j]);
    }
    assert(e.subrange(at, at + 4) =~= c.subrange(0, 4));
    assert(e[at + 4] == c[4] && e[at + 5] == c[5] && e[at + 6] == c[6] && e[at + 7] == c[7]);
    assert(e[at + 12] == c[12] && e[at + 13] == c[13] && e[at + 14] == c[14] && e[at + 15] == c[15]);
    assert(e[at + 16] == c[16] && e[at + 17] == c[17] && e[at + 18] == c[18] && e[at + 19] == c[19]);
    assert(e.subrange(at + 28, at + 28 + payload.len()) =~= c.subrange(28, c.len() as int));
}

proof fn chunk_stands(d: Seq<u8>, letters: Seq<u8>, payload: Seq<u8>, offset: u32, stream: u32)
    requires
        d.len() % 32 == 0,
        letters.len() == 4,
        payload.len() <= 0x1_0000,
    ensures
        grows_by(
            d,
            padded(d + chunk_bytes(letters, payload, offset, stream)),
            letters,
            payload,
            offset,
            stream,
        ),
{
    built_chunk_tells(letters, payload, offset, stream);
    let c = chunk_bytes(letters, payload, offset, stream);
    put_stands(d, c, letters, payload, offset, stream);
}

/// One more chunk is found.
proof fn chunk_found(
    d: Seq<u8>,
    e: Seq<u8>,
    pos: int,
    its_letters: Seq<u8>,
    payload: Seq<u8>,
    offset: u32,
    its_stream: u32,
    letters: Seq<u8>,
    stream: int,
    key: Option<u64>,
)
    requires
        lands(d, pos),
        0 <= pos,
        grows_by(d, e, its_letters, payload, offset, its_stream),
        its_letters != last_letters(),
    ensures
        ({
            let found = held_of(d, pos, letters, stream, key, Seq::empty());
            &&& e.len() % 32 == 0
            &&& lands(e, pos)
            &&& held_of(e, pos, letters, stream, key, Seq::empty()) == if its_letters == letters
                && its_stream == stream && offset == found.len() % 0x1_0000_0000 {
                found + unlocked(payload, letters, key)
            } else {
                found
            }
        }),
{
    reveal(grows_by);
    let at = d.len() as int;
    let found = held_of(d, pos, letters, stream, key, Seq::empty());
    assert(chunk_end(e, at) == at + 28 + payload.len());
    assert(lands(e, e.len() as int));
    assert(lands(e, at));
    walk_goes_on(d, e, pos, letters, stream, key, Seq::empty());
    let more = if its_letters == letters && its_stream == stream && offset == found.len()
        % 0x1_0000_0000 {
        unlocked(payload, letters, key)
    } else {
        Seq::empty()
    };
    assert(held_of(e, at, letters, stream, key, found) == held_of(
        e,
        e.len() as int,
        letters,
        stream,
        key,
        found + more,
    ));
    assert(found + Seq::<u8>::empty() =~= found);
}

/// The first so many pieces of a stream.
spec fn upto(data: Seq<u8>, k: nat) -> Seq<u8> {
    data.subrange(0, if k * 0x1_0000 <= data.len() { (k * 0x1_0000) as int } else { data.len() as int })
}

/// Whether the chunks from a place on hold so many pieces of a stream.
#[verifier::opaque]
spec fn holds(
    out: Seq<u8>,
    pos: int,
    letters: Seq<u8>,
    stream: int,
    key: Option<u64>,
    data: Seq<u8>,
    k: nat,
) -> bool {
    &&& 0 <= pos
    &&& lands(out, pos)
    &&& out.len() % 32 == 0
    &&& held_of(out, pos, letters, stream, key, Seq::empty()) == upto(data, k)
}

proof fn letters_differ()
    ensures
        SBV@ == video_data_letters(),
        SBA@ == audio_data_letters(),
        video_data_letters() != audio_data_letters(),
        video_data_letters() != last_letters(),
        audio_data_letters() != last_letters(),
        END@ == last_letters(),
{
    assert(SBV@ =~= video_data_letters());
    assert(SBA@ =~= audio_data_letters());
    assert(END@ =~= last_letters());
    assert(video_data_letters()[3] != audio_data_letters()[3]);
    assert(video_data_letters()[1] != last_letters()[1]);
    assert(audio_data_letters()[1] != last_letters()[1]);
}

proof fn next_piece(data: Seq<u8>, k: nat)
    requires
        k > 0,
    ensures
        (k - 1) * 0x1_0000 < data.len() ==> upto(data, (k - 1) as nat).len() == (k - 1) * 0x1_0000
            && upto(data, (k - 1) as nat) + piece(data, (k - 1) * 0x1_0000) == upto(data, k)
            && piece(data, (k - 1) * 0x1_0000).len() <= 0x1_0000,
        (k - 1) * 0x1_0000 >= data.len() ==> upto(data, (k - 1) as nat) == upto(data, k),
{
    let at = (k - 1) * 0x1_0000;
    if at < data.len() {
        assert(upto(data, (k - 1) as nat) + piece(data, at) =~= upto(data, k));
    } else {
        assert(upto(data, (k - 1) as nat) =~= upto(data, k));
    }
}

/// A round's video chunk brings the next piece of the video.
proof fn video_round(out: Seq<u8>, pos: int, video: Seq<u8>, k: nat, key: Option<u64>)
    requires
        k > 0,
        holds(out, pos, video_data_letters(), 0, key, video, (k - 1) as nat),
    ensures
        holds(
            with_video_chunk(out, video, (k - 1) * CHUNK_SIZE, key),
            pos,
            video_data_letters(),
            0,
            key,
            video,
            k,
        ),
{
    reveal(holds);
    let at = (k - 1) * 0x1_0000;
    next_piece(video, k);
    letters_differ();
    if at < video.len() {
        let p = piece(video, at);
        payload_sizes(p, key);
        let b = video_payload(p, key);
        let e = padded(out + chunk_bytes(SBV@, b, wrap32(at), 0));
        chunk_stands(out, SBV@, b, wrap32(at), 0);
        chunk_found(out, e, pos, SBV@, b, wrap32(at), 0, video_data_letters(), 0, key);
    }
}

proof fn payload_sizes(p: Seq<u8>, key: Option<u64>)
    ensures
        video_payload(p, key).len() == p.len(),
        audio_payload(p, key).len() == p.len(),
        unlocked(video_payload(p, key), video_data_letters(), key) == p,
        unlocked(audio_payload(p, key), audio_data_letters(), key) == p,
{
    letters_differ();
    if let Some(k) = key {
        built_payloads_open(p, k);
    }
}

/// A round's video chunk leaves the audio streams alone.
proof fn video_spares_audio(
    out: Seq<u8>,
    pos: int,
    video: Seq<u8>,
    at: int,
    key: Option<u64>,
    stream: int,
    data: Seq<u8>,
    k: nat,
)
    requires
        0 <= at,
        holds(out, pos, audio_data_letters(), stream, key, data, k),
    ensures
        holds(
            with_video_chunk(out, video, at, key),
            pos,
            audio_data_letters(),
            stream,
            key,
            data,
            k,
        ),
{
    reveal(holds);
    letters_differ();
    if at < video.len() {
        let p = piece(video, at);
        assert(p.len() <= 0x1_0000);
        payload_sizes(p, key);
        let b = video_payload(p, key);
        let e = padded(out + chunk_bytes(SBV@, b, wrap32(at), 0));
        chunk_stands(out, SBV@, b, wrap32(at), 0);
        chunk_found(out, e, pos, SBV@, b, wrap32(at), 0, audio_data_letters(), stream, key);
    }
}

/// A round's audio chunks leave the video alone.
proof fn audio_spares_video(
    out: Seq<u8>,
    pos: int,
    audios: Seq<Seq<u8>>,
    n: nat,
    at: int,
    key: Option<u64>,
    video: Seq<u8>,
    k: nat,
)
    requires
        0 <= at,
        n <= audios.len(),
        holds(out, pos, video_data_letters(), 0, key, video, k),
    ensures
        holds(
            with_audio_chunks(out, audios, n, at, key),
            pos,
            video_data_letters(),
            0,
            key,
            video,
            k,
        ),
    decreases n,
{
    reveal(holds);
    if n > 0 {
        letters_differ();
        audio_spares_video(out, pos, audios, (n - 1) as nat, at, key, video, k);
        let before = with_audio_chunks(out, audios, (n - 1) as nat, at, key);
        let audio = audios[n - 1];
        if at < audio.len() {
            let p = piece(audio, at);
            assert(p.len() <= 0x1_0000);
            payload_sizes(p, key);
            let b = audio_payload(p, key);
            let s = wrap32(n - 1);
            let e = padded(before + chunk_bytes(SBA@, b, wrap32(at), s));
            chunk_stands(before, SBA@, b, wrap32(at), s);
            chunk_found(before, e, pos, SBA@, b, wrap32(at), s, video_data_letters(), 0, key);
        }
    }
}

/// A chunk of an audio stream brings its next piece.
proof fn audio_chunk_comes(
    out: Seq<u8>,
    pos: int,
    audio: Seq<u8>,
    stream: u32,
    k: nat,
    key: Option<u64>,
)
    requires
        k > 0,
        holds(out, pos, audio_data_letters(), stream as int, key, audio, (k - 1) as nat),
    ensures
        holds(
            with_audio_chunk(out, audio, stream, (k - 1) * CHUNK_SIZE, key),
            pos,
            audio_data_letters(),
            stream as int,
            key,
            audio,
            k,
        ),
{
    reveal(holds);
    let at = (k - 1) * 0x1_0000;
    letters_differ();
    next_piece(audio, k);
    if at < audio.len() {
        let p = piece(audio, at);
        payload_sizes(p, key);
        let b = audio_payload(p, key);
        let e = padded(out + chunk_bytes(SBA@, b, wrap32(at), stream));
        chunk_stands(out, SBA@, b, wrap32(at), stream);
        chunk_found(
            out,
            e,
            pos,
            SBA@,
            b,
            wrap32(at),
            stream,
            audio_data_letters(),
            stream as int,
            key,
        );
    }
}

/// A chunk of an audio stream leaves the other ones alone.
proof fn audio_chunk_spares(
    out: Seq<u8>,
    pos: int,
    audio: Seq<u8>,
    stream: u32,
    at: int,
    key: Option<u64>,
    other: int,
    data: Seq<u8>,
    k: nat,
)
    requires
        0 <= at,
        stream != other,
        holds(out, pos, audio_data_letters(), other, key, data, k),
    ensures
        holds(
            with_audio_chunk(out, audio, stream, at, key),
            pos,
            audio_data_letters(),
            other,
            key,
            data,
            k,
        ),
{
    reveal(holds);
    letters_differ();
    if at < audio.len() {
        let p = piece(audio, at);
        assert(p.len() <= 0x1_0000);
        payload_sizes(p, key);
        let b = audio_payload(p, key);
        let e = padded(out + chunk_bytes(SBA@, b, wrap32(at), stream));
        chunk_stands(out, SBA@, b, wrap32(at), stream);
        chunk_found(out, e, pos, SBA@, b, wrap32(at), stream, audio_data_letters(), other, key);
    }
}

/// A round's audio chunks bring the next piece of every audio stream.
proof fn audio_round(
    out: Seq<u8>,
    pos: int,
    audios: Seq<Seq<u8>>,
    n: nat,
    k: nat,
    key: Option<u64>,
    j: int,
)
    requires
        k > 0,
        n <= audios.len() <= 0x1_0000_0000,
        0 <= j < audios.len(),
        holds(out, pos, audio_data_letters(), j, key, audios[j], (k - 1) as nat),
    ensures
        holds(
            with_audio_chunks(out, audios, n, (k - 1) * CHUNK_SIZE, key),
            pos,
            audio_data_letters(),
            j,
            key,
            audios[j],
            if j < n { k } else { (k - 1) as nat },
        ),
    decreases n,
{
    if n > 0 {
        let at = (k - 1) * CHUNK_SIZE;
        audio_round(out, pos, audios, (n - 1) as nat, k, key, j);
        let before = with_audio_chunks(out, audios, (n - 1) as nat, at, key);
        if j == n - 1 {
            audio_chunk_comes(before, pos, audios[j], wrap32(j), k, key);
        } else {
            let kept = if j < n { k } else { (k - 1) as nat };
            audio_chunk_spares(
                before,
                pos,
                audios[n - 1],
                wrap32(n - 1),
                at,
                key,
                j,
                audios[j],
                kept,
            );
        }
    }
}

proof fn rounds_hold_video(
    front: Seq<u8>,
    video: Seq<u8>,
    audios: Seq<Seq<u8>>,
    k: nat,
    key: Option<u64>,
)
    requires
        front.len() % 32 == 0,
    ensures
        holds(
            with_rounds(front, video, audios, k, key),
            front.len() as int,
            video_data_letters(),
            0,
            key,
            video,
            k,
        ),
    decreases k,
{
    reveal(holds);
    if k == 0 {
        assert(upto(video, 0) =~= Seq::empty());
    } else {
        rounds_hold_video(front, video, audios, (k - 1) as nat, key);
        let before = with_rounds(front, video, audios, (k - 1) as nat, key);
        let at = (k - 1) * CHUNK_SIZE;
        let pos = front.len() as int;
        video_round(before, pos, video, k, key);
        let w = with_video_chunk(before, video, at, key);
        audio_spares_video(w, pos, audios, audios.len(), at, key, video, k);
    }
}

proof fn rounds_hold_audio(
    front: Seq<u8>,
    video: Seq<u8>,
    audios: Seq<Seq<u8>>,
    k: nat,
    key: Option<u64>,
    j: int,
)
    requires
        front.len() % 32 == 0,
        0 <= j < audios.len() <= 0x1_0000_0000,
    ensures
        holds(
            with_rounds(front, video, audios, k, key),
            front.len() as int,
            audio_data_letters(),
            j,
            key,
            audios[j],
            k,
        ),
    decreases k,
{
    reveal(holds);
    if k == 0 {
        assert(upto(audios[j], 0) =~= Seq::empty());
    } else {
        rounds_hold_audio(front, video, audios, (k - 1) as nat, key, j);
        let before = with_rounds(front, video, audios, (k - 1) as nat, key);
        let at = (k - 1) * CHUNK_SIZE;
        let pos = front.len() as int;
        video_spares_audio(before, pos, video, at, key, j, audios[j], (k - 1) as nat);
        let w = with_video_chunk(before, video, at, key);
        audio_round(w, pos, audios, audios.len(), k, key, j);
    }
}

proof fn all_found(data: Seq<u8>, longest: nat)
    requires
        data.len() <= longest,
    ensures
        upto(data, chunk_count(longest)) == data,
{
    let k = chunk_count(longest);
    assert(k * 0x1_0000 >= longest);
    assert(upto(data, k) =~= data);
}

proof fn markers_stand(out: Seq<u8>, n: nat)
    ensures
        with_end_markers(out, n).len() == out.len() + 28 * n,
        with_end_markers(out, n).subrange(0, out.len() as int) == out,
        forall|k: int|
            0 <= k < n ==> #[trigger] marker_at(with_end_markers(out, n), out.len() + 28 * k),
    decreases n,
{
    let e = with_end_markers(out, n);
    if n == 0 {
        assert(e.subrange(0, out.len() as int) =~= out);
    } else {
        let b = with_end_markers(out, (n - 1) as nat);
        markers_stand(out, (n - 1) as nat);
        letters_differ();
        let m = end_marker();
        assert(m.len() == 28);
        assert(e.subrange(0, out.len() as int) =~= b.subrange(0, out.len() as int));
        assert forall|k: int| 0 <= k < n implies #[trigger] marker_at(e, out.len() + 28 * k) by {
            let at = out.len() + 28 * k;
            if k < n - 1 {
                assert(marker_at(b, at));
                assert(e.subrange(at, at + 4) =~= b.subrange(at, at + 4));
                assert(e.subrange(at + 12, at + 28) =~= b.subrange(at + 12, at + 28));
            } else {
                assert(e.subrange(at, at + 4) =~= last_letters());
                assert(e[at + 4] == m[4] && e[at + 5] == m[5] && e[at + 6] == m[6] && e[at + 7]
                    == m[7]);
                assert(e[at + 8] == m[8] && e[at + 9] == m[9] && e[at + 10] == m[10] && e[at + 11]
                    == m[11]);
                assert(e.subrange(at + 12, at + 28) =~= Seq::new(16, |i: int| 0u8));
            }
        }
    }
}

/// Whether an end marker stands at a place.
pub open spec fn marker_at(d: Seq<u8>, pos: int) -> bool {
    &&& d.subrange(pos, pos + 4) == last_letters()
    &&& four(d, pos + 4) == 24
    &&& two(d, pos + 8) == 1
    &&& two(d, pos + 10) == 24
    &&& d.subrange(pos + 12, pos + 28) == Seq::new(16, |i: int| 0u8)
}

/// Behind its headers a built movie holds its streams: the chunks with the
/// letters of video data hold the video, and those with the letters of audio
/// data and the number of an audio stream hold that stream, once the masks of
/// the key are off. Every chunk says where in its stream it starts, and
/// starts at a multiple of 32.
pub proof fn movie_holds_streams(
    front: Seq<u8>,
    video: Seq<u8>,
    audios: Seq<Seq<u8>>,
    key: Option<u64>,
)
    requires
        front.len() % 32 == 0,
        audios.len() <= 0x1_0000_0000,
    ensures
        ({
            let d = with_stream_data(front, video, audios, key);
            let at = front.len() as int;
            &&& held_of(d, at, video_data_letters(), 0, key, Seq::empty()) == video
            &&& forall|j: int|
                0 <= j < audios.len() ==> held_of(
                    d,
                    at,
                    audio_data_letters(),
                    j,
                    key,
                    Seq::empty(),
                ) == #[trigger] audios[j]
        }),
{
    reveal(holds);
    let k = chunk_count(longest(video, audios));
    let out = with_rounds(front, video, audios, k, key);
    let d = with_stream_data(front, video, audios, key);
    let at = front.len() as int;
    let n = (1 + audios.len()) as nat;
    longest_bounds(video, audios);
    all_found(video, longest(video, audios));
    rounds_hold_video(front, video, audios, k, key);
    markers_stand(out, n);
    assert(marker_at(d, out.len() + 28 * 0int));
    walk_goes_on(out, d, at, video_data_letters(), 0, key, Seq::empty());
    assert forall|j: int| 0 <= j < audios.len() implies held_of(
        d,
        at,
        audio_data_letters(),
        j,
        key,
        Seq::empty(),
    ) == #[trigger] audios[j] by {
        all_found(audios[j], longest(video, audios));
        rounds_hold_audio(front, video, audios, k, key, j);
        walk_goes_on(out, d, at, audio_data_letters(), j, key, Seq::empty());
    }
}

/// A built movie ends in one marker for its video and one for every audio
/// stream.
pub proof fn movie_ends_in_markers(
    front: Seq<u8>,
    video: Seq<u8>,
    audios: Seq<Seq<u8>>,
    key: Option<u64>,
    k: int,
)
    requires
        0 <= k <= audios.len(),
    ensures
        ({
            let d = with_stream_data(front, video, audios, key);
            &&& d.len() >= 28 * (k + 1)
            &&& marker_at(d, d.len() - 28 * (k + 1))
        }),
{
    let rounds = chunk_count(longest(video, audios));
    let out = with_rounds(front, video, audios, rounds, key);
    let n = (1 + audios.len()) as nat;
    markers_stand(out, n);
    let i = n - 1 - k;
    assert(marker_at(with_end_markers(out, n), out.len() + 28 * i));
}

} // verus!
