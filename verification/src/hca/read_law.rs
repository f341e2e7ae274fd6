//! How a stream is read block by block, and how its samples are counted.

use vstd::prelude::*;
use vstd::arithmetic::div_mod::{
    lemma_fundamental_div_mod, lemma_fundamental_div_mod_converse, lemma_mod_bound,
};
use crate::float::in_unit;
use crate::hca::decoder::{checked, HcaError, Stage};
use crate::hca::hca_file::{blocks_at_once, next_read, rewound, HcaDecoderError, StreamModel};
use crate::hca::rate_law::groups_cover;
use crate::hca::samples::{all_blanks, all_clips, blanks_in, clips_in, is_blank};
use crate::hca::schedule::{is_width, sum_step, turn_step};
use crate::reader::IoError;

verus! {

/// A stream whose data is complete gives its blocks one after the other, each
/// once, however many of them it fetches at a time; behind the last there is
/// no more.
pub proof fn reads_go_block_by_block(m: StreamModel)
    requires
        m.header.frame_size > 0,
        0 <= m.next,
        m.header.header_size + m.header.frame_count * m.header.frame_size <= m.data.len(),
    ensures
        ({
            let (error, after) = next_read(m);
            let h = m.header;
            let at = h.header_size + m.next * h.frame_size;
            &&& error == if m.next >= h.frame_count { Some(HcaDecoderError::Eof) } else { None }
            &&& error is None ==> after.next == m.next + 1
            &&& error is None ==> after.block == m.data.subrange(at, at + h.frame_size)
            &&& error is Some ==> after == m
            &&& after.data == m.data && after.header == m.header && after.state == m.state
            &&& after.delay == m.delay && after.written == m.written
        }),
{
    let h = m.header;
    let (error, after) = next_read(m);
    if m.next < h.frame_count {
        assert forall|want: int| want <= h.frame_count - m.next implies #[trigger] ((m.next + want)
            * h.frame_size) <= h.frame_count * h.frame_size by {
            assert((m.next + want) * h.frame_size <= h.frame_count * h.frame_size)
                by (nonlinear_arith)
                requires
                    m.next + want <= h.frame_count,
                    h.frame_size > 0,
            ;
        }
    }
}

/// A read past the end of the data fails, and the stream stays at its block.
pub proof fn cut_streams_fail(m: StreamModel)
    requires
        m.header.frame_size > 0,
        0 <= m.next < m.header.frame_count,
        m.ahead.1 == 0,
        m.header.header_size + (m.next + 1) * m.header.frame_size > m.data.len(),
    ensures
        next_read(m).0 == Some(HcaDecoderError::Io(IoError::UnexpectedEof)),
        next_read(m).1.next == m.next,
        next_read(m).1.block == m.block,
{
    let h = m.header;
    let want = blocks_at_once(h, m.next);
    assert((m.next + want) * h.frame_size >= (m.next + 1) * h.frame_size) by (nonlinear_arith)
        requires
            want >= 1,
            h.frame_size > 0,
    ;
}

/// A stream that is set back starts at its first block with nothing written,
/// and drops its delay again.
pub proof fn rewinding_starts_over(m: StreamModel)
    ensures
        rewound(m).next == 0,
        rewound(m).written == 0,
        rewound(m).delay == m.header.encoder_delay,
        m.state.is_valid ==> rewound(m).state.random == 1,
        rewound(m).data == m.data,
        rewound(m).header == m.header,
        rewound(rewound(m)) == rewound(m),
{
}

/// Every sample counts once: a wave that is cut in two has the counts of its
/// parts.
pub proof fn counts_add_up(wave: Seq<u32>, n: nat, m: nat)
    requires
        n <= m <= wave.len(),
    ensures
        blanks_in(wave, m) == blanks_in(wave, n) + blanks_in(
            wave.subrange(n as int, m as int),
            (m - n) as nat,
        ),
        clips_in(wave, m) == clips_in(wave, n) + clips_in(
            wave.subrange(n as int, m as int),
            (m - n) as nat,
        ),
    decreases m,
{
    if m > n {
        counts_add_up(wave, n, (m - 1) as nat);
        let part = wave.subrange(n as int, m as int);
        let less = wave.subrange(n as int, m - 1);
        counts_see_front(part, less, (m - 1 - n) as nat);
        assert(part[m - n - 1] == wave[m - 1]);
    }
}

proof fn counts_see_front(a: Seq<u32>, b: Seq<u32>, n: nat)
    requires
        n <= a.len(),
        n <= b.len(),
        forall|i: int| 0 <= i < n ==> a[i] == b[i],
    ensures
        blanks_in(a, n) == blanks_in(b, n),
        clips_in(a, n) == clips_in(b, n),
    decreases n,
{
    if n > 0 {
        counts_see_front(a, b, (n - 1) as nat);
    }
}

/// A single sample counts as blank or not, and as clipped where it lies
/// outside the unit.
pub proof fn one_sample_counts(s: u32)
    ensures
        blanks_in(seq![s], 1) == if is_blank(s) { 1int } else { 0 },
        clips_in(seq![s], 1) == if in_unit(s) { 0int } else { 1 },
{
    reveal_with_fuel(blanks_in, 2);
    reveal_with_fuel(clips_in, 2);
}

/// There are no more counts than samples, and none where no sample counts.
pub proof fn counts_are_bounded(wave: Seq<u32>, n: nat)
    requires
        n <= wave.len(),
    ensures
        blanks_in(wave, n) <= n,
        clips_in(wave, n) <= n,
        (forall|i: int| 0 <= i < n ==> !is_blank(#[trigger] wave[i])) <==> blanks_in(wave, n) == 0,
        (forall|i: int| 0 <= i < n ==> in_unit(#[trigger] wave[i])) <==> clips_in(wave, n) == 0,
        (forall|i: int| 0 <= i < n ==> is_blank(#[trigger] wave[i])) <==> blanks_in(wave, n) == n,
    decreases n,
{
    if n > 0 {
        counts_are_bounded(wave, (n - 1) as nat);
        assert(is_blank(wave[n - 1]) || !is_blank(wave[n - 1]));
        assert(in_unit(wave[n - 1]) || !in_unit(wave[n - 1]));
    }
}

/// The counts of several waves are the sums of theirs.
pub proof fn wave_counts_add_up(waves: Seq<Vec<u32>>, n: nat)
    requires
        0 < n <= waves.len(),
    ensures
        all_blanks(waves, n) == all_blanks(waves, (n - 1) as nat) + blanks_in(
            waves[n - 1]@,
            waves[n - 1]@.len(),
        ),
        all_clips(waves, n) == all_clips(waves, (n - 1) as nat) + clips_in(
            waves[n - 1]@,
            waves[n - 1]@.len(),
        ),
        all_blanks(waves, 0) == 0,
        all_clips(waves, 0) == 0,
{
}

/// A step that adds takes two neighbours. The steps fill blocks of twice their
/// width: the sums go to the first half of a block, in order, and each
/// difference as far into the second half as its sum into the first.
pub proof fn sums_go_first(width: int, n: int)
    requires
        is_width(width),
        0 <= n < 64,
    ensures
        ({
            let s = sum_step(width, n);
            &&& s.first == 2 * n && s.second == 2 * n + 1
            &&& s.high == s.low + width
            &&& s.low as int / (2 * width) == n / width
            &&& s.low as int % (2 * width) == n % width
        }),
{
    let q = n / width;
    let r = n % width;
    lemma_fundamental_div_mod(n, width);
    lemma_mod_bound(n, width);
    assert(0 <= q <= n) by (nonlinear_arith)
        requires
            n == width * q + r,
            0 <= r,
            1 <= width,
            0 <= n,
            r < width,
    ;
    assert(q * (2 * width) == 2 * (width * q)) by (nonlinear_arith);
    lemma_fundamental_div_mod_converse(
        q * (2 * width) + r,
        2 * width,
        q,
        r,
    );
}

/// A step that turns takes two values as far apart as the width, leaves the
/// first result in the place of the first value, and puts the second one into
/// the mirrored place of the block.
pub proof fn turns_mirror(width: int, n: int)
    requires
        is_width(width),
        0 <= n < 64,
    ensures
        ({
            let s = turn_step(width, n);
            let start = n / width * (2 * width);
            &&& s.second == s.first + width
            &&& s.low == s.first
            &&& s.first - start == n % width
            &&& s.low - start == start + 2 * width - 1 - s.high
        }),
{
    let q = n / width;
    let r = n % width;
    lemma_fundamental_div_mod(n, width);
    lemma_mod_bound(n, width);
    assert(0 <= q <= n) by (nonlinear_arith)
        requires
            n == width * q + r,
            0 <= r,
            1 <= width,
            0 <= n,
            r < width,
    ;
    assert(q * (2 * width) == 2 * (width * q)) by (nonlinear_arith);
}

/// A header that was read is refused for frames of less than 8 or more than
/// 65535 bytes, for resolutions that its version does not know, for more
/// tracks than channels and for more than 128 bands, and for nothing else. Its
/// groups of high bands hold all bands that are not coded, and none is empty.
pub proof fn headers_are_checked(s: Stage)
    requires
        s.error is None,
    ensures
        ({
            let h = s.h;
            let after = checked(s);
            let tracks: int = if h.track_count == 0 { 1 } else { h.track_count as int };
            let fine = {
                &&& 8 <= h.frame_size <= 65_535
                &&& h.version <= 0x200 ==> h.min_resolution == 1 && h.max_resolution == 15
                &&& h.version > 0x200 ==> h.min_resolution <= h.max_resolution <= 15
                &&& tracks <= h.channels
                &&& h.total_band_count <= 128
                &&& h.base_band_count + h.stereo_band_count <= 128
                &&& h.bands_per_hfr_group <= 128
            };
            &&& fine <==> after.error is None
            &&& !fine ==> after.error == Some(HcaError::InvalidHeader)
            &&& fine ==> after.h.track_count == tracks
            &&& fine && 0 < h.bands_per_hfr_group && h.base_band_count + h.stereo_band_count
                <= h.total_band_count ==> {
                let rest = h.total_band_count - h.base_band_count - h.stereo_band_count;
                let held = after.h.hfr_group_count * h.bands_per_hfr_group;
                rest <= held < rest + h.bands_per_hfr_group
            }
        }),
{
    let h = s.h;
    let rest = h.total_band_count - h.base_band_count - h.stereo_band_count;
    if 0 < h.bands_per_hfr_group <= 128 && 0 <= rest <= 128 {
        groups_cover(rest, h.bands_per_hfr_group as int);
    }
}

} // verus!
