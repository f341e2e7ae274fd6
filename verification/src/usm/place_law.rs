//! Where the parts of a container lie, and what names its streams.

use vstd::prelude::*;
use vstd::utf8::{encode_utf8, is_ascii_chars_encode_utf8};
use crate::bytes::u32_be;
use crate::reader::slice_at;
use crate::usm::extractor::{
    audio_codec, audio_extension, container_streams, file_names, filename_of, gathered, video_codec,
    video_extension,
};
use crate::usm::header::{
    marker_section, table_of, usm_parts, utf_section, UsmPartsModel, UtfSectionModel,
};
use crate::usm::mask::{audio_mask_bytes, mask_bytes, tail_mask_bytes};
use crate::usm::table::UtfModel;

verus! {

/// The number of four bytes, the high one first.
pub open spec fn number_at(d: Seq<u8>, i: int) -> int {
    16_777_216 * d[i] + 65_536 * d[i + 1] + 256 * d[i + 2] + d[i + 3]
}

/// Whether four bytes stand at a place.
pub open spec fn letters_at(d: Seq<u8>, i: int, a: u8, b: u8, c: u8, e: u8) -> bool {
    d[i] == a && d[i + 1] == b && d[i + 2] == c && d[i + 3] == e
}

/// The letters of video chunks at a place.
pub open spec fn video_at(d: Seq<u8>, i: int) -> bool {
    letters_at(d, i, 64, 83, 70, 86)
}

/// The letters of audio chunks at a place.
pub open spec fn audio_at(d: Seq<u8>, i: int) -> bool {
    letters_at(d, i, 64, 83, 70, 65)
}

/// Whether `#HEADER END` stands at a place.
pub open spec fn header_end_at(d: Seq<u8>, i: int) -> bool {
    &&& letters_at(d, i, 35, 72, 69, 65)
    &&& letters_at(d, i + 4, 68, 69, 82, 32)
    &&& d[i + 8] == 69 && d[i + 9] == 78 && d[i + 10] == 68
}

/// Whether `#METADATA END` stands at a place.
pub open spec fn metadata_end_at(d: Seq<u8>, i: int) -> bool {
    &&& letters_at(d, i, 35, 77, 69, 84)
    &&& letters_at(d, i + 4, 65, 68, 65, 84)
    &&& letters_at(d, i + 8, 65, 32, 69, 78)
    &&& d[i + 12] == 68
}

proof fn number_stands(d: Seq<u8>, i: nat)
    requires
        i + 4 <= d.len(),
    ensures
        u32_be(slice_at(d, i, 4)) == number_at(d, i as int),
{
    let s = slice_at(d, i, 4);
    let j = i as int;
    assert(s[0] == d[j] && s[1] == d[j + 1] && s[2] == d[j + 2] && s[3] == d[j + 3]);
}

proof fn names_spelled()
    ensures
        encode_utf8("CRID"@) == seq![67u8, 82, 73, 68],
        encode_utf8("@SFV"@) == seq![64u8, 83, 70, 86],
        encode_utf8("@SFA"@) == seq![64u8, 83, 70, 65],
        encode_utf8("#HEADER END"@) == seq![35u8, 72, 69, 65, 68, 69, 82, 32, 69, 78, 68],
        encode_utf8("#METADATA END"@) == seq![
            35u8,
            77,
            69,
            84,
            65,
            68,
            65,
            84,
            65,
            32,
            69,
            78,
            68,
        ],
{
    reveal_strlit("CRID");
    reveal_strlit("@SFV");
    reveal_strlit("@SFA");
    reveal_strlit("#HEADER END");
    reveal_strlit("#METADATA END");
    is_ascii_chars_encode_utf8("CRID"@);
    is_ascii_chars_encode_utf8("@SFV"@);
    is_ascii_chars_encode_utf8("@SFA"@);
    is_ascii_chars_encode_utf8("#HEADER END"@);
    is_ascii_chars_encode_utf8("#METADATA END"@);
    assert(encode_utf8("CRID"@) =~= seq![67u8, 82, 73, 68]);
    assert(encode_utf8("@SFV"@) =~= seq![64u8, 83, 70, 86]);
    assert(encode_utf8("@SFA"@) =~= seq![64u8, 83, 70, 65]);
    assert(encode_utf8("#HEADER END"@) =~= seq![35u8, 72, 69, 65, 68, 69, 82, 32, 69, 78, 68]);
    assert(encode_utf8("#METADATA END"@) =~= seq![
        35u8, 77, 69, 84, 65, 68, 65, 84, 65, 32, 69, 78, 68,
    ]);
}

proof fn four_stand(d: Seq<u8>, i: nat, a: u8, b: u8, c: u8, e: u8)
    requires
        i + 4 <= d.len(),
    ensures
        slice_at(d, i, 4) == seq![a, b, c, e] <==> letters_at(d, i as int, a, b, c, e),
{
    let s = slice_at(d, i, 4);
    let w = seq![a, b, c, e];
    assert(w[0] == a && w[1] == b && w[2] == c && w[3] == e);
    let j = i as int;
    assert(s[0] == d[j] && s[1] == d[j + 1] && s[2] == d[j + 2] && s[3] == d[j + 3]);
    if letters_at(d, i as int, a, b, c, e) {
        assert(s =~= w);
    }
}

/// Whether a chunk with a table stands at a place: its letters, its size, and
/// its table 32 bytes further on.
pub open spec fn table_stands(d: Seq<u8>, s: UtfSectionModel, at: int, named: bool) -> bool {
    &&& s.offset == at
    &&& s.block_size == number_at(d, at + 4)
    &&& table_of(d, (at + 32) as nat, named) is Ok
    &&& table_of(d, (at + 32) as nat, named)->Ok_0 == s.table
}

proof fn table_chunk_stands(d: Seq<u8>, at: int, audio: bool, named: bool)
    requires
        0 <= at,
    ensures
        ({
            let r = utf_section(d, at, if audio { "@SFA"@ } else { "@SFV"@ }, named);
            r is Ok ==> {
                &&& at + 8 <= d.len()
                &&& audio ==> audio_at(d, at)
                &&& !audio ==> video_at(d, at)
                &&& table_stands(d, r->Ok_0, at, named)
            }
        }),
{
    names_spelled();
    if at + 8 <= d.len() {
        number_stands(d, (at + 4) as nat);
        four_stand(d, at as nat, 64, 83, 70, 86);
        four_stand(d, at as nat, 64, 83, 70, 65);
    }
}

proof fn header_end_stands(d: Seq<u8>, at: int, audio: bool)
    requires
        0 <= at,
    ensures
        ({
            let r = marker_section(d, at, if audio { "@SFA"@ } else { "@SFV"@ }, "#HEADER END"@);
            r is Ok && at < 0x7000_0000_0000_0000 ==> {
                &&& at + 43 <= d.len()
                &&& audio ==> audio_at(d, at)
                &&& !audio ==> video_at(d, at)
                &&& r->Ok_0.offset == at
                &&& r->Ok_0.block_size == number_at(d, at + 4)
                &&& header_end_at(d, at + 32)
            }
        }),
{
    names_spelled();
    let r = marker_section(d, at, if audio { "@SFA"@ } else { "@SFV"@ }, "#HEADER END"@);
    if at + 8 <= d.len() {
        number_stands(d, (at + 4) as nat);
        four_stand(d, at as nat, 64, 83, 70, 86);
        four_stand(d, at as nat, 64, 83, 70, 65);
        if r is Ok {
            let s = slice_at(d, (at + 32) as nat, 11);
            let w = encode_utf8("#HEADER END"@);
            assert(w.len() == 11 && s == w);
            assert forall|k: int| 0 <= k < 11 implies d[at + 32 + k] == #[trigger] w[k] by {
                assert(s[k] == d[at + 32 + k]);
            }
            assert(w[0] == 35 && w[1] == 72 && w[2] == 69 && w[3] == 65 && w[4] == 68 && w[5] == 69
                && w[6] == 82 && w[7] == 32 && w[8] == 69 && w[9] == 78 && w[10] == 68);
        }
    }
}

proof fn metadata_end_stands(d: Seq<u8>, at: int)
    requires
        0 <= at,
    ensures
        ({
            let r = marker_section(d, at, "@SFV"@, "#METADATA END"@);
            r is Ok && at < 0x7000_0000_0000_0000 ==> {
                &&& at + 45 <= d.len()
                &&& video_at(d, at)
                &&& r->Ok_0.offset == at
                &&& r->Ok_0.block_size == number_at(d, at + 4)
                &&& metadata_end_at(d, at + 32)
            }
        }),
{
    names_spelled();
    let r = marker_section(d, at, "@SFV"@, "#METADATA END"@);
    if at + 8 <= d.len() {
        number_stands(d, (at + 4) as nat);
        four_stand(d, at as nat, 64, 83, 70, 86);
        if r is Ok {
            let s = slice_at(d, (at + 32) as nat, 13);
            let w = encode_utf8("#METADATA END"@);
            assert(w.len() == 13 && s == w);
            assert forall|k: int| 0 <= k < 13 implies d[at + 32 + k] == #[trigger] w[k] by {
                assert(s[k] == d[at + 32 + k]);
            }
            assert(w[0] == 35 && w[1] == 77 && w[2] == 69 && w[3] == 84 && w[4] == 65 && w[5] == 68
                && w[6] == 65 && w[7] == 84 && w[8] == 65 && w[9] == 32 && w[10] == 69 && w[11]
                == 78 && w[12] == 68);
        }
    }
}

/// The parts of a container that was read stand one behind the other, each 8
/// bytes and its size behind the one before: the directory, the video's header,
/// the audio's where there is one, an end marker for each, the seek table and
/// its end marker. The streams start 16 bytes behind the last marker, counted
/// from the next multiple of four.
pub proof fn parts_follow_each_other(d: Seq<u8>, named: bool)
    requires
        usm_parts(d, 0, named) is Ok,
    ensures
        ({
            let p = usm_parts(d, 0, named)->Ok_0;
            let video = 8 + number_at(d, 4);
            let second = video + 8 + number_at(d, video + 4);
            let has_audio = audio_at(d, second);
            let ends = if has_audio { second + 8 + number_at(d, second + 4) } else { second };
            let more = ends + 8 + number_at(d, ends + 4);
            let seek = if has_audio { more + 8 + number_at(d, more + 4) } else { more };
            let last = seek + 8 + number_at(d, seek + 4);
            &&& letters_at(d, 0, 67, 82, 73, 68)
            &&& table_of(d, 32, named) is Ok
            &&& table_of(d, 32, named)->Ok_0 == p.directory
            &&& video_at(d, video) && table_stands(d, p.header.video, video, named)
            &&& p.header.audio is Some <==> has_audio
            &&& has_audio ==> table_stands(d, p.header.audio->Some_0, second, named)
            &&& video_at(d, ends) && header_end_at(d, ends + 32)
            &&& has_audio ==> audio_at(d, more) && header_end_at(d, more + 32)
            &&& video_at(d, seek) && table_stands(d, p.metadata.table, seek, named)
            &&& video_at(d, last) && metadata_end_at(d, last + 32)
            &&& p.metadata.stream_offset == (last + 45 + 3) / 4 * 4 + 16
        }),
{
    let p = usm_parts(d, 0, named)->Ok_0;
    names_spelled();
    four_stand(d, 0, 67, 82, 73, 68);
    number_stands(d, 4);
    let video = 8 + number_at(d, 4);
    table_chunk_stands(d, video, false, named);
    let second = video + 8 + number_at(d, video + 4);
    four_stand(d, second as nat, 64, 83, 70, 65);
    let has_audio = audio_at(d, second);
    if has_audio {
        table_chunk_stands(d, second, true, named);
    }
    let ends = if has_audio { second + 8 + number_at(d, second + 4) } else { second };
    header_end_stands(d, ends, false);
    let more = ends + 8 + number_at(d, ends + 4);
    if has_audio {
        header_end_stands(d, more, true);
    }
    let seek = if has_audio { more + 8 + number_at(d, more + 4) } else { more };
    table_chunk_stands(d, seek, false, named);
    let last = seek + 8 + number_at(d, seek + 4);
    metadata_end_stands(d, last);
}

/// The codecs of a container are those that its headers name, and its file name
/// is that of the last row of its directory, unless there is none.
pub proof fn names_come_from_tables(
    p: UsmPartsModel,
    fallback: Seq<u8>,
    v: u32,
    name: Seq<u8>,
)
    ensures
        p.header.video.table.rows.len() > 0 && p.header.video.table.rows[0].contains_key(
            "mpeg_codec"@,
        ) && p.header.video.table.rows[0]["mpeg_codec"@] == UtfModel::UInt(v) ==> video_codec(p)
            == Some(v),
        p.header.audio is None ==> audio_codec(p) is None,
        p.header.audio is Some && p.header.audio->Some_0.table.rows.len() > 0
            && p.header.audio->Some_0.table.rows[0].contains_key("audio_codec"@)
            && p.header.audio->Some_0.table.rows[0]["audio_codec"@] == UtfModel::UInt(v)
            ==> audio_codec(p) == Some(v),
        p.directory.rows.len() == 0 ==> filename_of(p.directory.rows, fallback) == fallback,
        p.directory.rows.len() > 0 && !p.directory.rows.last().contains_key("filename"@)
            ==> filename_of(p.directory.rows, fallback) == fallback,
        p.directory.rows.len() > 0 && p.directory.rows.last().contains_key("filename"@) && (
        p.directory.rows.last()["filename"@] == UtfModel::String(name)
            || p.directory.rows.last()["filename"@] == UtfModel::Data(name)) ==> filename_of(
            p.directory.rows,
            fallback,
        ) == name,
{
}

/// Video is named `ivf` for codec 9 and else `m2v`; audio `hca` for codec 4 and
/// else `adx`.
pub proof fn extensions_tell_codecs(codec: Option<u32>)
    ensures
        video_extension(codec) == if codec == Some(9u32) {
            seq!['i', 'v', 'f']
        } else {
            seq!['m', '2', 'v']
        },
        audio_extension(codec) == if codec == Some(4u32) {
            seq!['h', 'c', 'a']
        } else {
            seq!['a', 'd', 'x']
        },
{
    reveal_strlit("ivf");
    reveal_strlit("m2v");
    reveal_strlit("hca");
    reveal_strlit("adx");
    assert("ivf"@ =~= seq!['i', 'v', 'f']);
    assert("m2v"@ =~= seq!['m', '2', 'v']);
    assert("hca"@ =~= seq!['h', 'c', 'a']);
    assert("adx"@ =~= seq!['a', 'd', 'x']);
}

/// The files of a container are its base name, a dot and the extension of
/// their codec: the video first, then the audio where it is asked for.
pub proof fn files_are_named(
    base: Seq<char>,
    with_audio: bool,
    video: Option<u32>,
    audio: Option<u32>,
)
    ensures
        ({
            let names = file_names(base, with_audio, video, audio);
            &&& names.len() == if with_audio { 2int } else { 1int }
            &&& names[0] == base.push('.') + video_extension(video)
            &&& with_audio ==> names[1] == base.push('.') + audio_extension(audio)
        }),
{
    reveal_strlit(".");
    assert(base + "."@ =~= base.push('.'));
}

/// The streams of a container are gathered from where its parts say, with the
/// masks of its key: those of the video whatever its codec, that of the audio
/// for codec 2 alone.
pub proof fn streams_start_behind_parts(
    d: Seq<u8>,
    p: UsmPartsModel,
    key: Option<u64>,
    with_audio: bool,
)
    ensures
        container_streams(d, p, key, with_audio) == gathered(
            d,
            p.metadata.stream_offset as nat,
            Seq::empty(),
            if with_audio && p.header.audio is Some { Some(Seq::empty()) } else { None },
            match key {
                Some(k) => Some((mask_bytes(k), tail_mask_bytes(k))),
                None => None,
            },
            match (key, audio_codec(p)) {
                (Some(k), Some(2)) => Some(audio_mask_bytes(k)),
                _ => None,
            },
        ),
{
}

} // verus!
