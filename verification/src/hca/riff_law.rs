//! Which bytes of a WAV file say what.

use vstd::prelude::*;
use crate::bytes::{u16_le, u32_le};
use crate::hca::wav::{data_id, letters_at, raw_samples, wav_fmt_id, wav_from, WavLayout};

verus! {

/// The number of two bytes, the low one first.
pub open spec fn pair_le(d: Seq<u8>, i: int) -> int {
    d[i] + 256 * d[i + 1]
}

/// The number of four bytes, the low one first.
pub open spec fn word_le(d: Seq<u8>, i: int) -> int {
    d[i] + 256 * d[i + 1] + 65_536 * d[i + 2] + 16_777_216 * d[i + 3]
}

/// Whether four bytes stand at a place.
pub open spec fn bytes_stand(d: Seq<u8>, i: int, a: u8, b: u8, c: u8, e: u8) -> bool {
    d[i] == a && d[i + 1] == b && d[i + 2] == c && d[i + 3] == e
}

proof fn words_read(d: Seq<u8>, i: int)
    requires
        0 <= i,
    ensures
        i + 2 <= d.len() ==> u16_le(d.subrange(i, i + 2)) == pair_le(d, i),
        i + 4 <= d.len() ==> u32_le(d.subrange(i, i + 4)) == word_le(d, i),
{
    if i + 2 <= d.len() {
        let s = d.subrange(i, i + 2);
        assert(s[0] == d[i] && s[1] == d[i + 1]);
    }
    if i + 4 <= d.len() {
        let s = d.subrange(i, i + 4);
        assert(s[0] == d[i] && s[1] == d[i + 1] && s[2] == d[i + 2] && s[3] == d[i + 3]);
    }
}

proof fn letters_read(d: Seq<u8>, i: int)
    requires
        0 <= i,
        i + 4 <= d.len(),
    ensures
        letters_at(d, i, wav_fmt_id()) == bytes_stand(d, i, 0x66, 0x6d, 0x74, 0x20),
        letters_at(d, i, data_id()) == bytes_stand(d, i, 0x64, 0x61, 0x74, 0x61),
{
    let s = d.subrange(i, i + 4);
    assert(s[0] == d[i] && s[1] == d[i + 1] && s[2] == d[i + 2] && s[3] == d[i + 3]);
    let f = wav_fmt_id();
    let g = data_id();
    if bytes_stand(d, i, 0x66, 0x6d, 0x74, 0x20) {
        assert(s =~= f);
    }
    if bytes_stand(d, i, 0x64, 0x61, 0x74, 0x61) {
        assert(s =~= g);
    }
}

/// A chunk that is neither format nor data is passed over: the next one stands
/// behind its eight bytes of header and its content, padded to an even length.
pub proof fn other_chunks_are_passed_over(d: Seq<u8>, pos: int, l: WavLayout)
    requires
        0 <= pos,
        pos + 8 <= d.len(),
        !bytes_stand(d, pos, 0x66, 0x6d, 0x74, 0x20),
        !bytes_stand(d, pos, 0x64, 0x61, 0x74, 0x61),
    ensures
        ({
            let n = word_le(d, pos + 4);
            wav_from(d, pos, l) == wav_from(d, pos + 8 + n + n % 2, l)
        }),
{
    letters_read(d, pos);
    words_read(d, pos + 4);
}

/// A format chunk tells channels, sampling rate and the bits of a sample; what
/// earlier chunks said of them no longer counts.
pub proof fn format_chunk_tells(d: Seq<u8>, pos: int, l: WavLayout)
    requires
        0 <= pos,
        pos + 24 <= d.len(),
        bytes_stand(d, pos, 0x66, 0x6d, 0x74, 0x20),
        word_le(d, pos + 4) >= 16,
    ensures
        ({
            let n = word_le(d, pos + 4);
            let told = WavLayout {
                channels: pair_le(d, pos + 10) as u32,
                sample_rate: word_le(d, pos + 12) as u32,
                bits_per_sample: pair_le(d, pos + 22) as u32,
                data_start: l.data_start,
                data_len: l.data_len,
            };
            wav_from(d, pos, l) == wav_from(d, pos + 8 + n + n % 2, told)
        }),
{
    letters_read(d, pos);
    words_read(d, pos + 4);
    words_read(d, pos + 10);
    words_read(d, pos + 12);
    words_read(d, pos + 22);
}

/// The samples of a file lie in its first data chunk, which ends the search.
pub proof fn data_chunk_tells(d: Seq<u8>, pos: int, l: WavLayout)
    requires
        0 <= pos,
        pos + 8 <= d.len() <= usize::MAX,
        bytes_stand(d, pos, 0x64, 0x61, 0x74, 0x61),
    ensures
        ({
            let told = wav_from(d, pos, l)->Some_0;
            &&& wav_from(d, pos, l) is Some
            &&& told.data_start == pos + 8
            &&& told.data_len == word_le(d, pos + 4)
            &&& told.channels == l.channels && told.sample_rate == l.sample_rate
            &&& told.bits_per_sample == l.bits_per_sample
        }),
{
    letters_read(d, pos);
    words_read(d, pos + 4);
}

/// There are as many samples as the data chunk says and the file holds.
pub proof fn samples_are_counted(d: Seq<u8>, l: WavLayout)
    requires
        l.bits_per_sample == 16 || l.bits_per_sample == 24 || l.bits_per_sample == 32,
        l.data_start <= d.len(),
    ensures
        ({
            let n = raw_samples(d, l).len();
            let size = l.bits_per_sample as int / 8;
            let held: int = if l.data_start + l.data_len <= d.len() {
                l.data_len as int
            } else {
                d.len() - l.data_start
            };
            &&& size * n <= held
            &&& held < size * (n + 1)
        }),
{
}

} // verus!
