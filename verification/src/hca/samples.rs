//! Decoded samples, given by the bits of single-precision numbers.

use vstd::prelude::*;
use crate::float::{float_trunc, in_unit, truncate_float, ONE};
use crate::hca::decoder::ClHca;
use crate::hca::reconstruct::block_score;

verus! {

/// The sample as a 16-bit number: scaled by 2^15, cut to a whole number and
/// kept within the range.
pub open spec fn pcm_of(bits: u32) -> i16 {
    let v = float_trunc(bits, 15);
    if v < -32768 {
        (-32768) as i16
    } else if v > 32767 {
        32767
    } else {
        v as i16
    }
}

/// The sample as a 16-bit number.
pub fn pcm_f32_to_i16(bits: u32) -> (r: i16)
    ensures
        r == pcm_of(bits),
{
    let v: i32 = truncate_float(bits, 15);
    if v < -32768 {
        -32768
    } else if v > 32767 {
        32767
    } else {
        v as i16
    }
}

/// Whether a sample is as good as silent.
pub open spec fn is_blank(bits: u32) -> bool {
    in_unit(bits) && (float_trunc(bits, 15) == 0 || float_trunc(bits, 15) == -1)
}

/// One for a clipped sample, and one for a sample as good as silent.
pub fn sample_quality(bits: u32) -> (r: (i32, i32))
    ensures
        r.0 == if in_unit(bits) { 0int } else { 1 },
        r.1 == if is_blank(bits) { 1int } else { 0 },
{
    if bits % 0x8000_0000 > ONE {
        return (1, 0);
    }
    let v: i32 = truncate_float(bits, 15);
    (
        0,
        if v == 0 || v == -1 {
            1
        } else {
            0
        },
    )
}

/// The clipped ones among the first `n` samples.
pub open spec fn clips_in(wave: Seq<u32>, n: nat) -> nat
    decreases n,
{
    if n == 0 {
        0
    } else {
        clips_in(wave, (n - 1) as nat) + if in_unit(wave[n - 1]) { 0nat } else { 1 }
    }
}

/// The blank ones among the first `n` samples.
pub open spec fn blanks_in(wave: Seq<u32>, n: nat) -> nat
    decreases n,
{
    if n == 0 {
        0
    } else {
        blanks_in(wave, (n - 1) as nat) + if is_blank(wave[n - 1]) { 1nat } else { 0 }
    }
}

/// The clipped samples of the first `n` channels.
pub open spec fn all_clips(waves: Seq<Vec<u32>>, n: nat) -> nat
    decreases n,
{
    if n == 0 {
        0
    } else {
        all_clips(waves, (n - 1) as nat) + clips_in(waves[n - 1]@, waves[n - 1]@.len())
    }
}

/// The blank samples of the first `n` channels.
pub open spec fn all_blanks(waves: Seq<Vec<u32>>, n: nat) -> nat
    decreases n,
{
    if n == 0 {
        0
    } else {
        all_blanks(waves, (n - 1) as nat) + blanks_in(waves[n - 1]@, waves[n - 1]@.len())
    }
}

/// The clipped and the blank samples of a channel.
fn count_samples(wave: &Vec<u32>) -> (r: (i32, i32))
    requires
        wave@.len() <= 1024,
    ensures
        r.0 == clips_in(wave@, wave@.len()),
        r.1 == blanks_in(wave@, wave@.len()),
        0 <= r.0 <= 1024,
        0 <= r.1 <= 1024,
{
    let mut clips: i32 = 0;
    let mut blanks: i32 = 0;
    let mut i: usize = 0;
    while i < wave.len()
        invariant
            i <= wave@.len() <= 1024,
            clips == clips_in(wave@, i as nat),
            blanks == blanks_in(wave@, i as nat),
            0 <= clips <= i,
            0 <= blanks <= i,
        decreases wave@.len() - i,
    {
        let (clip, blank) = sample_quality(wave[i]);
        clips = clips + clip;
        blanks = blanks + blank;
        i += 1;
    }
    (clips, blanks)
}

impl ClHca {
    /// Judges the samples of a block, one list of 1024 for each channel.
    pub fn evaluate_decode_quality(&self, waves: &Vec<Vec<u32>>) -> (r: i32)
        requires
            self.header().channels <= 16,
            waves@.len() == self.header().channels,
            forall|c: int| 0 <= c < waves@.len() ==> (#[trigger] waves@[c])@.len() == 1024,
        ensures
            r == block_score(
                all_clips(waves@, waves@.len()) as int,
                all_blanks(waves@, waves@.len()) as int,
                blanks_in(waves@[0]@, 1024) as int,
                blanks_in(waves@[1]@, 1024) as int,
                self.header().channels as int,
                1024,
            ),
    {
        let mut clips: i32 = 0;
        let mut blanks: i32 = 0;
        let mut by_channel: Vec<i32> = Vec::new();
        let mut c: usize = 0;
        while c < waves.len()
            invariant
                c <= waves@.len() <= 16,
                forall|k: int| 0 <= k < waves@.len() ==> (#[trigger] waves@[k])@.len() == 1024,
                clips == all_clips(waves@, c as nat),
                blanks == all_blanks(waves@, c as nat),
                0 <= clips <= 1024 * c,
                0 <= blanks <= 1024 * c,
                by_channel@.len() == c,
                forall|k: int|
                    0 <= k < c ==> #[trigger] by_channel@[k] == blanks_in(waves@[k]@, 1024),
            decreases waves@.len() - c,
        {
            assert(waves@[c as int]@.len() == 1024);
            let (clip, blank) = count_samples(&waves[c]);
            clips = clips + clip;
            blanks = blanks + blank;
            by_channel.push(blank);
            c += 1;
        }
        self.calculate_score(clips, blanks, by_channel.as_slice(), 1024)
    }
}

} // verus!
