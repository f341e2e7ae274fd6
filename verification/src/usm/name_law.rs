//! How the streams of a container are named.

use vstd::prelude::*;
use crate::usm::cell_law::signed;
use crate::usm::extractor::{
    audio_extension, base_text, first_u32, low_word, named_streams, part_start, stem_within,
    video_extension,
};
use crate::usm::table::{RowModel, UtfModel};

verus! {

proof fn part_begins(s: Seq<char>, at: nat, n: nat)
    requires
        at <= n <= s.len(),
        at > 0 ==> s[at - 1] == '/',
        forall|i: int| at <= i < n ==> s[i] != '/',
    ensures
        part_start(s, n) == at,
    decreases n,
{
    if n > at {
        part_begins(s, at, (n - 1) as nat);
    }
}

proof fn stem_ends(s: Seq<char>, dot: nat, n: nat)
    requires
        1 <= dot < n <= s.len(),
        s[dot as int] == '.',
        forall|i: int| dot < i < n ==> s[i] != '.',
    ensures
        stem_within(s, n) == s.subrange(0, dot as int),
    decreases n,
{
    if n > dot + 1 {
        stem_ends(s, dot, (n - 1) as nat);
    }
}

/// The streams of a movie are named as its file without folders and extension:
/// in front of the last slash, and from the last dot on, nothing counts.
pub proof fn folders_and_extension_go(dir: Seq<char>, stem: Seq<char>, ext: Seq<char>)
    requires
        stem.len() > 0,
        ext.len() > 0,
        !stem.contains('/'),
        !ext.contains('/'),
        !ext.contains('.'),
    ensures
        base_text(dir + seq!['/'] + stem + seq!['.'] + ext) == stem,
        base_text(stem + seq!['.'] + ext) == stem,
{
    let file = stem + seq!['.'] + ext;
    let path = dir + seq!['/'] + stem + seq!['.'] + ext;
    let at = dir.len() + 1;
    let dot = stem.len();
    assert forall|i: int| 0 <= i < file.len() implies file[i] != '/' by {
        if i < dot {
            assert(stem.contains(stem[i]));
        } else if i > dot {
            assert(ext.contains(ext[i - dot - 1]));
        }
    }
    assert forall|i: int| dot < i < file.len() implies file[i] != '.' by {
        assert(ext.contains(ext[i - dot - 1]));
    }
    assert forall|i: int| at <= i < path.len() implies path[i] != '/' by {
        assert(path[i] == file[i - at]);
    }
    part_begins(path, at, path.len());
    part_begins(file, 0, file.len());
    assert(path.subrange(at as int, path.len() as int) =~= file);
    assert(file.subrange(0, file.len() as int) =~= file);
    stem_ends(file, dot, file.len());
    assert(file.subrange(0, dot as int) =~= stem);
}

/// A codec is the whole number in the first row, its low 32 bits without a
/// sign; there is none where there is no row, no such column, or no number.
pub proof fn codecs_are_words(
    rows: Seq<RowModel>,
    key: Seq<char>,
    a: u8,
    b: i8,
    c: u16,
    d: i16,
    e: u32,
    f: i32,
    g: u64,
)
    ensures
        rows.len() == 0 ==> first_u32(rows, key) is None,
        rows.len() > 0 && !rows[0].contains_key(key) ==> first_u32(rows, key) is None,
        rows.len() > 0 && rows[0].contains_key(key) ==> first_u32(rows, key) == low_word(
            rows[0][key],
        ),
        low_word(UtfModel::Byte(a)) == Some(a as u32),
        low_word(UtfModel::UShort(c)) == Some(c as u32),
        low_word(UtfModel::UInt(e)) == Some(e),
        low_word(UtfModel::SByte(b)) is Some,
        signed(low_word(UtfModel::SByte(b))->Some_0 as int, 4_294_967_296) == b,
        low_word(UtfModel::Short(d)) is Some,
        signed(low_word(UtfModel::Short(d))->Some_0 as int, 4_294_967_296) == d,
        low_word(UtfModel::Int(f)) is Some,
        signed(low_word(UtfModel::Int(f))->Some_0 as int, 4_294_967_296) == f,
        low_word(UtfModel::ULong(g)) is Some,
        low_word(UtfModel::ULong(g))->Some_0 == g as int % 4_294_967_296,
        low_word(UtfModel::String(Seq::empty())) is None,
        low_word(UtfModel::Data(Seq::empty())) is None,
{
}

/// The streams of a container: the video first, then the audio where there is
/// some, both under the base name, each with its data and the extension of its
/// own codec.
pub proof fn streams_are_named(
    base: Seq<char>,
    video: Seq<u8>,
    audio: Option<Seq<u8>>,
    mpeg: Option<u32>,
    codec: Option<u32>,
)
    ensures
        ({
            let s = named_streams(base, video, audio, mpeg, codec);
            &&& s.len() == if audio is Some { 2int } else { 1int }
            &&& s[0].name == base && s[0].data == video && s[0].extension == video_extension(mpeg)
            &&& audio is Some ==> s[1].name == base && s[1].data == audio->Some_0
                && s[1].extension == audio_extension(codec)
        }),
{
}

} // verus!
