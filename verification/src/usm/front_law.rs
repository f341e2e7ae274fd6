//! What the headers of a built movie tell.

use vstd::prelude::*;
use vstd::utf8::encode_utf8;
use crate::acb::utf::wrap32;
use crate::bytes::{be16, be32, be32_round_trip};
use crate::usm::builder::{
    audio_table, chunk_flags, directory_table, padded, table_head, video_table, with_audio_header,
    with_audio_headers, with_directory, with_headers, with_video_header, CRID, DIR_STRINGS, SFA,
    SFV, UTF,
};
use crate::usm::build_law::aligned;
use crate::usm::cell_law::{four, two};

verus! {

proof fn words_of(d: Seq<u8>, pos: int, v: u32)
    requires
        0 <= pos,
        pos + 4 <= d.len(),
        d.subrange(pos, pos + 4) == be32(v),
    ensures
        four(d, pos) == v,
{
    be32_round_trip(v);
    let s = d.subrange(pos, pos + 4);
    assert(s[0] == d[pos] && s[1] == d[pos + 1] && s[2] == d[pos + 2] && s[3] == d[pos + 3]);
}

/// A header chunk behind other output.
#[verifier::opaque]
spec fn put_header(out: Seq<u8>, letters: Seq<u8>, size: u32, table: Seq<u8>) -> Seq<u8> {
    padded(out + letters + be32(size) + chunk_flags() + table)
}

#[verifier::spinoff_prover]
#[verifier::rlimit(60)]
proof fn header_stands(out: Seq<u8>, letters: Seq<u8>, size: u32, table: Seq<u8>)
    requires
        out.len() % 32 == 0,
        letters.len() == 4,
    ensures
        ({
            let h = put_header(out, letters, size, table);
            let at = out.len() as int;
            &&& h.len() == aligned(at + 28 + table.len())
            &&& h.subrange(0, at) == out
            &&& h.subrange(at, at + 4) == letters
            &&& four(h, at + 4) == size
            &&& two(h, at + 8) == 1
            &&& two(h, at + 10) == 24
            &&& h.subrange(at + 28, at + 28 + table.len()) == table
        }),
{
    reveal(put_header);
    let h = padded(out + letters + be32(size) + chunk_flags() + table);
    let at = out.len() as int;
    assert(h.subrange(0, at) =~= out);
    assert(h.subrange(at, at + 4) =~= letters);
    assert(h.subrange(at + 4, at + 8) =~= be32(size));
    words_of(h, at + 4, size);
    assert(be16(1)[0] == 0 && be16(1)[1] == 1);
    assert(be16(0x18)[0] == 0 && be16(0x18)[1] == 24);
    assert(h[at + 8] == be16(1)[0] && h[at + 9] == be16(1)[1]);
    assert(h[at + 10] == be16(0x18)[0] && h[at + 11] == be16(0x18)[1]);
    assert(h.subrange(at + 28, at + 28 + table.len()) =~= table);
}

/// The directory chunk of a built movie: its letters, a size that counts all
/// output before it, and a table that ends in the name of the file and a zero.
pub proof fn directory_tells(out: Seq<u8>, name: Seq<u8>)
    requires
        out.len() % 32 == 0,
        out.len() + name.len() + 1000 <= u32::MAX,
    ensures
        ({
            let h = with_directory(out, name);
            let at = out.len() as int;
            &&& h.len() == aligned(at + 97 + name.len())
            &&& h.subrange(0, at) == out
            &&& h.subrange(at, at + 4) == seq![0x43u8, 0x52, 0x49, 0x44]
            &&& four(h, at + 4) == at + 89 + name.len()
            &&& h.subrange(at + 28, at + 32) == seq![0x40u8, 0x55, 0x54, 0x46]
            &&& four(h, at + 32) == name.len() + 61
            &&& h.subrange(at + 96, at + 96 + name.len()) == name
            &&& h[at + 96 + name.len()] == 0
        }),
{
    directory_stands(name);
    directory_placed(out, name, directory_table(name));
    assert(with_directory(out, name) == put_header(
        out,
        CRID@,
        wrap32(out.len() + 28 + directory_table(name).len() - 8),
        directory_table(name),
    )) by {
        reveal(put_header);
    }
}

proof fn directory_placed(out: Seq<u8>, name: Seq<u8>, t: Seq<u8>)
    requires
        out.len() % 32 == 0,
        out.len() + name.len() + 1000 <= u32::MAX,
        t.len() == 69 + name.len(),
        t.subrange(0, 4) == seq![0x40u8, 0x55, 0x54, 0x46],
        t.subrange(4, 8) == be32((name.len() + 61) as u32),
        t.subrange(68, 68 + name.len() as int) == name,
        t[68 + name.len() as int] == 0,
    ensures
        ({
            let h = put_header(out, CRID@, wrap32(out.len() + 28 + t.len() - 8), t);
            let at = out.len() as int;
            &&& h.len() == aligned(at + 97 + name.len())
            &&& h.subrange(0, at) == out
            &&& h.subrange(at, at + 4) == seq![0x43u8, 0x52, 0x49, 0x44]
            &&& four(h, at + 4) == at + 89 + name.len()
            &&& h.subrange(at + 28, at + 32) == seq![0x40u8, 0x55, 0x54, 0x46]
            &&& four(h, at + 32) == name.len() + 61
            &&& h.subrange(at + 96, at + 96 + name.len()) == name
            &&& h[at + 96 + name.len()] == 0
        }),
{
    let size = wrap32(out.len() + 28 + t.len() - 8);
    assert(CRID@ =~= seq![0x43u8, 0x52, 0x49, 0x44]);
    header_stands(out, CRID@, size, t);
    directory_words(put_header(out, CRID@, size, t), t, out.len() as int, name);
}

#[verifier::spinoff_prover]
#[verifier::rlimit(60)]
proof fn directory_stands(name: Seq<u8>)
    requires
        name.len() + 1000 <= u32::MAX,
    ensures
        ({
            let t = directory_table(name);
            &&& t.len() == 69 + name.len()
            &&& t.subrange(0, 4) == seq![0x40u8, 0x55, 0x54, 0x46]
            &&& t.subrange(4, 8) == be32((name.len() + 61) as u32)
            &&& t.subrange(68, 68 + name.len() as int) == name
            &&& t[68 + name.len() as int] == 0
        }),
{
    let t = directory_table(name);
    assert(UTF@ =~= seq![0x40u8, 0x55, 0x54, 0x46]);
    let head = table_head(
        wrap32(name.len() as int + 61),
        25,
        29,
        wrap32(name.len() as int + 57),
        1,
        4,
    );
    assert(head.len() == 32);
    assert(head.subrange(0, 4) =~= UTF@);
    assert(head.subrange(4, 8) =~= be32(wrap32(name.len() as int + 61)));
    let rest = seq![0x5Au8] + be32(18) + be32(27) + DIR_STRINGS@;
    assert(rest.len() == 36);
    assert(t =~= head + rest + name + seq![0u8]);
    assert(t.subrange(0, 4) =~= head.subrange(0, 4));
    assert(t.subrange(4, 8) =~= head.subrange(4, 8));
    assert(t.subrange(68, 68 + name.len() as int) =~= name);
}

proof fn directory_words(h: Seq<u8>, t: Seq<u8>, at: int, name: Seq<u8>)
    requires
        0 <= at,
        name.len() + 1000 <= u32::MAX,
        at + 28 + t.len() <= h.len(),
        h.subrange(at + 28, at + 28 + t.len()) == t,
        t.len() == 69 + name.len(),
        t.subrange(4, 8) == be32((name.len() + 61) as u32),
        t.subrange(68, 68 + name.len() as int) == name,
        t[68 + name.len() as int] == 0,
    ensures
        h.subrange(at + 28, at + 32) == t.subrange(0, 4),
        four(h, at + 32) == name.len() + 61,
        h.subrange(at + 96, at + 96 + name.len()) == name,
        h[at + 96 + name.len()] == 0,
{
    inner_stands(h, t, at + 28, 0, 4);
    inner_stands(h, t, at + 28, 4, 8);
    inner_stands(h, t, at + 28, 68, 68 + name.len() as int);
    words_of(h, at + 32, (name.len() + 61) as u32);
    assert(h.subrange(at + 28, at + 28 + t.len())[68 + name.len() as int] == h[at + 96
        + name.len()]);
}

proof fn inner_stands(h: Seq<u8>, t: Seq<u8>, at: int, a: int, b: int)
    requires
        0 <= at,
        at + t.len() <= h.len(),
        h.subrange(at, at + t.len()) == t,
        0 <= a <= b <= t.len(),
    ensures
        h.subrange(at + a, at + b) == t.subrange(a, b),
{
    assert(h.subrange(at + a, at + b) =~= h.subrange(at, at + t.len()).subrange(a, b));
}

/// The header chunk of a built movie's video tells a frame of 1920 by 1080 and
/// one frame for every thousand bytes.
pub proof fn video_header_tells(out: Seq<u8>, len: nat)
    requires
        out.len() % 32 == 0,
    ensures
        ({
            let h = with_video_header(out, len);
            let at = out.len() as int;
            &&& h.len() == at + 128
            &&& h.subrange(0, at) == out
            &&& h.subrange(at, at + 4) == seq![0x40u8, 0x53, 0x46, 0x56]
            &&& four(h, at + 4) == 119
            &&& four(h, at + 75) == 1920
            &&& four(h, at + 79) == 1080
            &&& four(h, at + 83) == (len / 1000) % 0x1_0000_0000
        }),
{
    let t = video_table(len);
    let count = wrap32(len as int / 1000);
    assert(t.len() == 99);
    assert(t.subrange(47, 51) =~= be32(1920));
    assert(t.subrange(51, 55) =~= be32(1080));
    assert(t.subrange(55, 59) =~= be32(count));
    video_placed(out, t, count);
    assert(with_video_header(out, len) == put_header(out, SFV@, 119, t)) by {
        reveal(put_header);
    }
}

proof fn video_placed(out: Seq<u8>, t: Seq<u8>, count: u32)
    requires
        out.len() % 32 == 0,
        t.len() == 99,
        t.subrange(47, 51) == be32(1920),
        t.subrange(51, 55) == be32(1080),
        t.subrange(55, 59) == be32(count),
    ensures
        ({
            let h = put_header(out, SFV@, 119, t);
            let at = out.len() as int;
            &&& h.len() == at + 128
            &&& h.subrange(0, at) == out
            &&& h.subrange(at, at + 4) == seq![0x40u8, 0x53, 0x46, 0x56]
            &&& four(h, at + 4) == 119
            &&& four(h, at + 75) == 1920
            &&& four(h, at + 79) == 1080
            &&& four(h, at + 83) == count
        }),
{
    let h = put_header(out, SFV@, 119, t);
    let at = out.len() as int;
    assert(SFV@ =~= seq![0x40u8, 0x53, 0x46, 0x56]);
    header_stands(out, SFV@, 119, t);
    inner_stands(h, t, at + 28, 47, 51);
    inner_stands(h, t, at + 28, 51, 55);
    inner_stands(h, t, at + 28, 55, 59);
    words_of(h, at + 75, 1920);
    words_of(h, at + 79, 1080);
    words_of(h, at + 83, count);
}

/// The header chunks of a built movie's audio streams stand one behind the
/// other, each with the number of its stream.
pub proof fn audio_headers_tell(out: Seq<u8>, n: nat)
    requires
        out.len() % 32 == 0,
        n <= 0x1_0000_0000,
    ensures
        ({
            let h = with_audio_headers(out, n);
            &&& h.len() == out.len() + 96 * n
            &&& h.subrange(0, out.len() as int) == out
            &&& forall|k: int| 0 <= k < n ==> #[trigger] audio_header_at(h, out.len() as int, k)
        }),
    decreases n,
{
    let h = with_audio_headers(out, n);
    let from = out.len() as int;
    if n == 0 {
        assert(h.subrange(0, from) =~= out);
    } else {
        let b = with_audio_headers(out, (n - 1) as nat);
        audio_headers_tell(out, (n - 1) as nat);
        audio_header_stands(b, wrap32(n - 1));
        audio_headers_stay(out, b, h, n);
    }
}

proof fn audio_header_stands(b: Seq<u8>, stream: u32)
    requires
        b.len() % 32 == 0,
    ensures
        ({
            let h = with_audio_header(b, stream);
            let at = b.len() as int;
            &&& h.len() == at + 96
            &&& h.subrange(0, at) == b
            &&& h.subrange(at, at + 4) == seq![0x40u8, 0x53, 0x46, 0x41]
            &&& four(h, at + 4) == 85
            &&& four(h, at + 65) == stream
        }),
{
    let t = audio_table(stream);
    assert(t.len() == 65);
    assert(t.subrange(37, 41) =~= be32(stream));
    audio_placed(b, t, stream);
    assert(with_audio_header(b, stream) == put_header(b, SFA@, 85, t)) by {
        reveal(put_header);
    }
}

proof fn audio_placed(b: Seq<u8>, t: Seq<u8>, stream: u32)
    requires
        b.len() % 32 == 0,
        t.len() == 65,
        t.subrange(37, 41) == be32(stream),
    ensures
        ({
            let h = put_header(b, SFA@, 85, t);
            let at = b.len() as int;
            &&& h.len() == at + 96
            &&& h.subrange(0, at) == b
            &&& h.subrange(at, at + 4) == seq![0x40u8, 0x53, 0x46, 0x41]
            &&& four(h, at + 4) == 85
            &&& four(h, at + 65) == stream
        }),
{
    let h = put_header(b, SFA@, 85, t);
    let at = b.len() as int;
    assert(SFA@ =~= seq![0x40u8, 0x53, 0x46, 0x41]);
    header_stands(b, SFA@, 85, t);
    inner_stands(h, t, at + 28, 37, 41);
    words_of(h, at + 65, stream);
}

proof fn audio_headers_stay(out: Seq<u8>, b: Seq<u8>, h: Seq<u8>, n: nat)
    requires
        n > 0,
        b.len() == out.len() + 96 * (n - 1),
        h.len() == b.len() + 96,
        b.subrange(0, out.len() as int) == out,
        h.subrange(0, b.len() as int) == b,
        audio_header_at(h, out.len() as int, n - 1),
        forall|k: int| 0 <= k < n - 1 ==> #[trigger] audio_header_at(b, out.len() as int, k),
    ensures
        h.subrange(0, out.len() as int) == out,
        forall|k: int| 0 <= k < n ==> #[trigger] audio_header_at(h, out.len() as int, k),
{
    let from = out.len() as int;
    let at = b.len() as int;
    assert(h.subrange(0, from) =~= h.subrange(0, at).subrange(0, from));
    assert forall|k: int| 0 <= k < n implies #[trigger] audio_header_at(h, from, k) by {
        if k < n - 1 {
            let p = from + 96 * k;
            assert(audio_header_at(b, from, k));
            assert forall|i: int| 0 <= i < at implies h[i] == b[i] by {
                assert(h.subrange(0, at)[i] == h[i]);
            }
            assert(h.subrange(p, p + 4) =~= b.subrange(p, p + 4));
        }
    }
}

/// Whether the header chunk of an audio stream stands in its place.
pub open spec fn audio_header_at(h: Seq<u8>, from: int, k: int) -> bool {
    let at = from + 96 * k;
    &&& h.subrange(at, at + 4) == seq![0x40u8, 0x53, 0x46, 0x41]
    &&& four(h, at + 4) == 85
    &&& four(h, at + 65) == k
}

/// The headers of a built movie stand one behind the other: the directory, the
/// video's, then one for every audio stream.
pub proof fn headers_follow(out: Seq<u8>, name: Seq<char>, video: Seq<u8>, audios: Seq<Seq<u8>>)
    requires
        out.len() % 32 == 0,
        out.len() + encode_utf8(name).len() + 1000 <= u32::MAX,
        audios.len() <= 0x1_0000_0000,
    ensures
        ({
            let h = with_headers(out, name, video, audios);
            let b = encode_utf8(name);
            let at = out.len() as int;
            let v = aligned(at + 97 + b.len());
            &&& h.len() == v + 128 + 96 * audios.len()
            &&& h.subrange(at, at + 4) == seq![0x43u8, 0x52, 0x49, 0x44]
            &&& h.subrange(at + 96, at + 96 + b.len()) == b
            &&& h.subrange(v, v + 4) == seq![0x40u8, 0x53, 0x46, 0x56]
            &&& four(h, v + 83) == (video.len() / 1000) % 0x1_0000_0000
            &&& forall|k: int| 0 <= k < audios.len() ==> #[trigger] audio_header_at(h, v + 128, k)
        }),
{
    front_follows(out, encode_utf8(name), video.len(), audios.len());
    assert(with_headers(out, name, video, audios) == front_of(
        out,
        encode_utf8(name),
        video.len(),
        audios.len(),
    )) by {
        reveal(front_of);
        reveal(behind_directory);
        reveal(behind_video);
    }
}

#[verifier::opaque]
spec fn behind_directory(out: Seq<u8>, b: Seq<u8>) -> Seq<u8> {
    with_directory(out, b)
}

#[verifier::opaque]
spec fn behind_video(d: Seq<u8>, len: nat) -> Seq<u8> {
    with_video_header(d, len)
}

#[verifier::opaque]
spec fn front_of(out: Seq<u8>, b: Seq<u8>, len: nat, n: nat) -> Seq<u8> {
    with_audio_headers(behind_video(behind_directory(out, b), len), n)
}

proof fn front_follows(out: Seq<u8>, b: Seq<u8>, len: nat, n: nat)
    requires
        out.len() % 32 == 0,
        out.len() + b.len() + 1000 <= u32::MAX,
        n <= 0x1_0000_0000,
    ensures
        ({
            let h = front_of(out, b, len, n);
            let at = out.len() as int;
            let v = aligned(at + 97 + b.len());
            &&& h.len() == v + 128 + 96 * n
            &&& h.subrange(at, at + 4) == seq![0x43u8, 0x52, 0x49, 0x44]
            &&& h.subrange(at + 96, at + 96 + b.len()) == b
            &&& h.subrange(v, v + 4) == seq![0x40u8, 0x53, 0x46, 0x56]
            &&& four(h, v + 83) == (len / 1000) % 0x1_0000_0000
            &&& forall|k: int| 0 <= k < n ==> #[trigger] audio_header_at(h, v + 128, k)
        }),
{
    let d = behind_directory(out, b);
    let w = behind_video(d, len);
    directory_put(out, b);
    video_put(d, len);
    assert(d.len() % 32 == 0);
    audios_put(out, b, len, n);
    headers_stay(d, w, front_of(out, b, len, n), out.len() as int, b);
}

proof fn directory_put(out: Seq<u8>, b: Seq<u8>)
    requires
        out.len() % 32 == 0,
        out.len() + b.len() + 1000 <= u32::MAX,
    ensures
        ({
            let d = behind_directory(out, b);
            let at = out.len() as int;
            &&& d.len() == aligned(at + 97 + b.len())
            &&& d.subrange(at, at + 4) == seq![0x43u8, 0x52, 0x49, 0x44]
            &&& d.subrange(at + 96, at + 96 + b.len()) == b
        }),
{
    reveal(behind_directory);
    directory_tells(out, b);
}

proof fn video_put(d: Seq<u8>, len: nat)
    requires
        d.len() % 32 == 0,
    ensures
        ({
            let w = behind_video(d, len);
            let v = d.len() as int;
            &&& w.len() == v + 128
            &&& w.subrange(0, v) == d
            &&& w.subrange(v, v + 4) == seq![0x40u8, 0x53, 0x46, 0x56]
            &&& four(w, v + 83) == (len / 1000) % 0x1_0000_0000
        }),
{
    reveal(behind_video);
    video_header_tells(d, len);
}

proof fn audios_put(out: Seq<u8>, b: Seq<u8>, len: nat, n: nat)
    requires
        behind_video(behind_directory(out, b), len).len() % 32 == 0,
        n <= 0x1_0000_0000,
    ensures
        ({
            let w = behind_video(behind_directory(out, b), len);
            let h = front_of(out, b, len, n);
            &&& h.len() == w.len() + 96 * n
            &&& h.subrange(0, w.len() as int) == w
            &&& forall|k: int| 0 <= k < n ==> #[trigger] audio_header_at(h, w.len() as int, k)
        }),
{
    reveal(front_of);
    audio_headers_tell(behind_video(behind_directory(out, b), len), n);
}

proof fn headers_stay(d: Seq<u8>, w: Seq<u8>, h: Seq<u8>, at: int, b: Seq<u8>)
    requires
        0 <= at,
        at + 96 + b.len() <= d.len(),
        d.len() + 128 == w.len() <= h.len(),
        w.subrange(0, d.len() as int) == d,
        h.subrange(0, w.len() as int) == w,
    ensures
        h.subrange(at, at + 4) == d.subrange(at, at + 4),
        h.subrange(at + 96, at + 96 + b.len()) == d.subrange(at + 96, at + 96 + b.len()),
        h.subrange(d.len() as int, d.len() as int + 4) == w.subrange(d.len() as int, d.len() as int + 4),
        four(h, d.len() as int + 83) == four(w, d.len() as int + 83),
{
    let v = d.len() as int;
    assert forall|i: int| 0 <= i < w.len() implies h[i] == w[i] by {
        assert(h.subrange(0, w.len() as int)[i] == h[i]);
    }
    assert forall|i: int| 0 <= i < v implies w[i] == d[i] by {
        assert(w.subrange(0, v)[i] == w[i]);
    }
    assert(h.subrange(at, at + 4) =~= d.subrange(at, at + 4));
    assert(h.subrange(at + 96, at + 96 + b.len()) =~= d.subrange(at + 96, at + 96 + b.len()));
    assert(h.subrange(v, v + 4) =~= w.subrange(v, v + 4));
}

} // verus!
