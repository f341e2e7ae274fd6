//! Streams cut into chunks come together again.

use vstd::prelude::*;
use vstd::utf8::{encode_utf8, is_ascii_chars_encode_utf8};
use crate::bytes::{be16, be16_round_trip, be32, be32_round_trip};
use crate::reader::slice_at;
use crate::usm::extractor::{chunk_at, gathered, payload, payload_fits, plain_audio, plain_video};
use crate::usm::mask::{
    audio_mask_undoes_itself, audio_masked, video_mask_comes_off, video_masked,
};
use crate::usm::table::UsmFault;

verus! {

/// A piece of a stream as a chunk carries it: who it belongs to, what kind it
/// is, what it holds, and how much of the chunk is not payload.
pub struct Piece {
    pub signature: Seq<u8>,
    pub kind: u8,
    pub header_size: u16,
    pub footer_size: u16,
    /// Bytes of the chunk's header that say nothing of its payload.
    pub before_kind: Seq<u8>,
    pub after_kind: Seq<u8>,
    pub content: Seq<u8>,
    /// What stands between the payload and the next chunk.
    pub padding: Seq<u8>,
}

/// The signature of video chunks.
pub open spec fn video_letters() -> Seq<u8> {
    seq![0x40u8, 0x53, 0x46, 0x56]
}

/// The signature of audio chunks.
pub open spec fn audio_chunk_letters() -> Seq<u8> {
    seq![0x40u8, 0x53, 0x46, 0x41]
}

/// What marks the end of a stream.
pub open spec fn end_letters() -> Seq<u8> {
    seq![0x23u8, 0x43, 0x4f, 0x4e, 0x54, 0x45, 0x4e, 0x54, 0x53, 0x20, 0x45, 0x4e, 0x44]
}

/// The masks of a movie: head and tail of its video, and its audio.
pub struct Masks {
    pub video: Option<(Seq<u8>, Seq<u8>)>,
    pub audio: Option<Seq<u8>>,
}

/// Whether masks have their widths.
pub open spec fn masks_wide(m: Masks) -> bool {
    &&& m.video is Some ==> m.video->Some_0.0.len() == 32 && m.video->Some_0.1.len() == 32
    &&& m.audio is Some ==> m.audio->Some_0.len() == 32
}

/// The payload of a piece: pieces of kind zero are masked.
pub open spec fn stored_payload(p: Piece, m: Masks) -> Seq<u8> {
    if p.kind % 4 != 0 {
        p.content
    } else if p.signature == video_letters() && m.video is Some {
        video_masked(p.content, m.video->Some_0.0, m.video->Some_0.1)
    } else if p.signature == audio_chunk_letters() && m.audio is Some {
        audio_masked(p.content, m.audio->Some_0)
    } else {
        p.content
    }
}

/// The chunk of a piece.
pub open spec fn piece_bytes(p: Piece, m: Masks) -> Seq<u8> {
    let stored = stored_payload(p, m);
    p.signature + be32((p.header_size + stored.len() + p.footer_size) as u32) + be16(p.header_size)
        + be16(p.footer_size) + p.before_kind + seq![p.kind] + p.after_kind + stored + p.padding
}

/// Whether a piece only marks the end of a stream.
pub open spec fn ends_stream(p: Piece, m: Masks) -> bool {
    (stored_payload(p, m) + p.padding).subrange(0, 13) == end_letters()
}

/// Whether a piece can be a chunk: its header takes 24 bytes behind the size,
/// what else header and footer name is padding, and it is long enough to be
/// looked into.
pub open spec fn piece_sound(p: Piece, m: Masks) -> bool {
    &&& p.signature.len() == 4
    &&& p.before_kind.len() == 3
    &&& p.after_kind.len() == 16
    &&& p.padding.len() == p.header_size + p.footer_size - 24
    &&& stored_payload(p, m).len() + p.padding.len() >= 13
    &&& p.header_size + stored_payload(p, m).len() + p.footer_size <= u32::MAX
}

/// The chunks of all pieces from `i` on.
pub open spec fn chunks_from(pieces: Seq<Piece>, m: Masks, i: nat) -> Seq<u8>
    decreases pieces.len() - i,
{
    if i >= pieces.len() {
        Seq::empty()
    } else {
        piece_bytes(pieces[i as int], m) + chunks_from(pieces, m, i + 1)
    }
}

/// The content of all pieces of a stream from `i` on.
pub open spec fn stream_from(pieces: Seq<Piece>, m: Masks, signature: Seq<u8>, i: nat) -> Seq<u8>
    decreases pieces.len() - i,
{
    if i >= pieces.len() {
        Seq::empty()
    } else {
        let p = pieces[i as int];
        let own = if p.signature == signature && !ends_stream(p, m) {
            p.content
        } else {
            Seq::empty()
        };
        own + stream_from(pieces, m, signature, i + 1)
    }
}

proof fn letters_named()
    ensures
        encode_utf8("@SFV"@) == video_letters(),
        encode_utf8("@SFA"@) == audio_chunk_letters(),
        encode_utf8("#CONTENTS END"@) == end_letters(),
{
    reveal_strlit("@SFV");
    reveal_strlit("@SFA");
    reveal_strlit("#CONTENTS END");
    is_ascii_chars_encode_utf8("@SFV"@);
    is_ascii_chars_encode_utf8("@SFA"@);
    is_ascii_chars_encode_utf8("#CONTENTS END"@);
    assert(encode_utf8("@SFV"@) =~= video_letters());
    assert(encode_utf8("@SFA"@) =~= audio_chunk_letters());
    assert(encode_utf8("#CONTENTS END"@) =~= end_letters());
}

proof fn slice_stands(d: Seq<u8>, pos: nat, whole: Seq<u8>, from: nat, n: nat)
    requires
        pos <= d.len(),
        d.subrange(pos as int, d.len() as int) == whole,
        from + n <= whole.len(),
    ensures
        slice_at(d, pos + from, n) == whole.subrange(from as int, (from + n) as int),
{
    let tail = d.subrange(pos as int, d.len() as int);
    let x = slice_at(d, pos + from, n);
    let y = whole.subrange(from as int, (from + n) as int);
    assert forall|j: int| 0 <= j < n implies #[trigger] x[j] == y[j] by {
        assert(tail[from + j] == d[pos + (from + j)]);
    }
    assert(x =~= y);
}

proof fn chunk_stands(d: Seq<u8>, pos: nat, p: Piece, m: Masks, rest: Seq<u8>)
    requires
        piece_sound(p, m),
        pos <= d.len(),
        d.subrange(pos as int, d.len() as int) == piece_bytes(p, m) + rest,
    ensures
        ({
            let c = chunk_at(d, pos);
            let n = piece_bytes(p, m).len();
            &&& n >= 45
            &&& pos + n + rest.len() == d.len()
            &&& c.signature == p.signature
            &&& c.contents_end == ends_stream(p, m)
            &&& c.len == stored_payload(p, m).len()
            &&& c.data_type == p.kind % 4
            &&& c.next == pos + n
            &&& payload_fits(d, pos)
            &&& payload(d, pos) == stored_payload(p, m)
        }),
{
    let s = stored_payload(p, m);
    let b = piece_bytes(p, m);
    let whole = b + rest;
    let size = (p.header_size + s.len() + p.footer_size) as u32;
    assert(b.len() == 32 + s.len() + p.padding.len());
    assert(whole.len() == d.len() - pos);
    be32_round_trip(size);
    be16_round_trip(p.header_size);
    be16_round_trip(p.footer_size);
    slice_stands(d, pos, whole, 0, 4);
    slice_stands(d, pos, whole, 4, 4);
    slice_stands(d, pos, whole, 8, 2);
    slice_stands(d, pos, whole, 10, 2);
    slice_stands(d, pos, whole, 32, 13);
    slice_stands(d, pos, whole, 32, s.len());
    assert(whole.subrange(0, 4) =~= p.signature);
    assert(whole.subrange(4, 8) =~= be32(size));
    assert(whole.subrange(8, 10) =~= be16(p.header_size));
    assert(whole.subrange(10, 12) =~= be16(p.footer_size));
    assert(d.subrange(pos as int, d.len() as int)[15] == whole[15]);
    assert(whole[15] == p.kind);
    assert(whole.subrange(32, 45) =~= (s + p.padding).subrange(0, 13));
    assert(whole.subrange(32, (32 + s.len()) as int) =~= s);
    if s.len() == 0 {
        assert(s =~= Seq::empty());
    }
    letters_named();
}

proof fn content_back(p: Piece, m: Masks)
    requires
        masks_wide(m),
    ensures
        p.signature == video_letters() ==> plain_video(
            stored_payload(p, m),
            p.kind % 4,
            m.video,
        ) == p.content,
        p.signature == audio_chunk_letters() ==> plain_audio(
            stored_payload(p, m),
            p.kind % 4,
            m.audio,
        ) == p.content,
{
    assert(video_letters()[3] != audio_chunk_letters()[3]);
    if m.video is Some {
        video_mask_comes_off(p.content, m.video->Some_0.0, m.video->Some_0.1);
    }
    if m.audio is Some {
        audio_mask_undoes_itself(p.content, m.audio->Some_0);
    }
}

proof fn gathered_from(
    d: Seq<u8>,
    pos: nat,
    pieces: Seq<Piece>,
    m: Masks,
    i: nat,
    video: Seq<u8>,
    audio: Option<Seq<u8>>,
)
    requires
        masks_wide(m),
        forall|k: int| 0 <= k < pieces.len() ==> piece_sound(#[trigger] pieces[k], m),
        i <= pieces.len(),
        pos <= d.len(),
        d.subrange(pos as int, d.len() as int) == chunks_from(pieces, m, i),
    ensures
        gathered(d, pos, video, audio, m.video, m.audio) == Ok::<
            (Seq<u8>, Option<Seq<u8>>),
            UsmFault,
        >(
            (
                video + stream_from(pieces, m, video_letters(), i),
                match audio {
                    Some(a) => Some(a + stream_from(pieces, m, audio_chunk_letters(), i)),
                    None => None,
                },
            ),
        ),
    decreases pieces.len() - i,
{
    let v = stream_from(pieces, m, video_letters(), i);
    let w = stream_from(pieces, m, audio_chunk_letters(), i);
    if i == pieces.len() {
        assert(d.subrange(pos as int, d.len() as int).len() == 0);
        assert(video + v =~= video);
        if audio is Some {
            assert(audio->Some_0 + w =~= audio->Some_0);
        }
    } else {
        let p = pieces[i as int];
        let rest = chunks_from(pieces, m, i + 1);
        assert(piece_sound(p, m));
        chunk_stands(d, pos, p, m, rest);
        letters_named();
        content_back(p, m);
        let n = piece_bytes(p, m).len();
        let next = pos + n;
        let c = chunk_at(d, pos);
        assert(d.subrange(next as int, d.len() as int) =~= rest) by {
            let whole = piece_bytes(p, m) + rest;
            assert forall|j: int| 0 <= j < rest.len() implies d[next + j] == rest[j] by {
                assert(d.subrange(pos as int, d.len() as int)[n + j] == whole[n + j]);
            }
        }
        let more = stream_from(pieces, m, video_letters(), i + 1);
        let heard = stream_from(pieces, m, audio_chunk_letters(), i + 1);
        assert(video_letters()[3] != audio_chunk_letters()[3]);
        if !ends_stream(p, m) && p.signature == video_letters() {
            gathered_from(d, next, pieces, m, i + 1, video + p.content, audio);
            assert((video + p.content) + more =~= video + v);
            if audio is Some {
                assert(audio->Some_0 + heard =~= audio->Some_0 + w);
            }
        } else if !ends_stream(p, m) && p.signature == audio_chunk_letters() && audio is Some {
            let a = audio->Some_0;
            gathered_from(d, next, pieces, m, i + 1, video, Some(a + p.content));
            assert(video + more =~= video + v);
            assert((a + p.content) + heard =~= a + w);
        } else {
            gathered_from(d, next, pieces, m, i + 1, video, audio);
            assert(video + more =~= video + v);
            if audio is Some {
                assert(audio->Some_0 + heard =~= audio->Some_0 + w);
            }
        }
    }
}

/// Streams that are cut into pieces, masked and put into chunks, with any
/// padding that the chunks' header and footer sizes name, come together again
/// as they were: the video, and the audio where it is asked for. What else the
/// chunks hold changes nothing, and neither do chunks of other streams and end
/// markers.
pub proof fn chunks_give_streams(front: Seq<u8>, pieces: Seq<Piece>, m: Masks, with_audio: bool)
    requires
        masks_wide(m),
        forall|k: int| 0 <= k < pieces.len() ==> piece_sound(#[trigger] pieces[k], m),
    ensures
        gathered(
            front + chunks_from(pieces, m, 0),
            front.len(),
            Seq::empty(),
            if with_audio { Some(Seq::empty()) } else { None },
            m.video,
            m.audio,
        ) == Ok::<(Seq<u8>, Option<Seq<u8>>), UsmFault>(
            (
                stream_from(pieces, m, video_letters(), 0),
                if with_audio {
                    Some(stream_from(pieces, m, audio_chunk_letters(), 0))
                } else {
                    None
                },
            ),
        ),
{
    let d = front + chunks_from(pieces, m, 0);
    assert(d.subrange(front.len() as int, d.len() as int) =~= chunks_from(pieces, m, 0));
    let v = stream_from(pieces, m, video_letters(), 0);
    let w = stream_from(pieces, m, audio_chunk_letters(), 0);
    gathered_from(
        d,
        front.len(),
        pieces,
        m,
        0,
        Seq::empty(),
        if with_audio { Some(Seq::empty()) } else { None },
    );
    assert(Seq::<u8>::empty() + v =~= v);
    assert(Seq::<u8>::empty() + w =~= w);
}

} // verus!
