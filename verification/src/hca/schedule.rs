//! Which values the stages of the inverse transform combine.

use vstd::prelude::*;
use vstd::arithmetic::div_mod::{lemma_fundamental_div_mod, lemma_mod_bound};
use crate::hca::decoder::HCA_SAMPLES_PER_SUBFRAME;

verus! {

/// Two values that a stage reads, and where it writes the two results.
#[derive(Debug, Clone, Copy, PartialEq, Eq, Structural)]
pub struct Step {
    pub first: usize,
    pub second: usize,
    pub low: usize,
    pub high: usize,
}

/// The steps of a stage.
pub const STEPS: usize = 64;

/// Whether the steps of a stage fall into blocks of the given width.
pub open spec fn is_width(width: int) -> bool {
    width == 1 || width == 2 || width == 4 || width == 8 || width == 16 || width == 32 || width
        == 64
}

/// Step `n` of a stage that adds and subtracts neighbours: sums go to the
/// first half of a block of results, differences to the second.
pub open spec fn sum_step(width: int, n: int) -> Step {
    let at = n / width * (2 * width) + n % width;
    Step {
        first: (2 * n) as usize,
        second: (2 * n + 1) as usize,
        low: at as usize,
        high: (at + width) as usize,
    }
}

/// Step `n` of a stage that rotates: it combines the two halves of a block,
/// and the second results go to the block's end in reverse.
pub open spec fn turn_step(width: int, n: int) -> Step {
    let start = n / width * (2 * width);
    Step {
        first: (start + n % width) as usize,
        second: (start + n % width + width) as usize,
        low: (start + n % width) as usize,
        high: (start + 2 * width - 1 - n % width) as usize,
    }
}

/// The block of a step lies within the values of a subframe.
proof fn block_lies(width: int, n: int)
    requires
        is_width(width),
        0 <= n < STEPS,
    ensures
        0 <= n / width,
        0 <= n % width < width,
        n / width * width + n % width == n,
        n / width * (2 * width) == 2 * (n / width * width),
        n / width * width + width <= STEPS,
{
    lemma_fundamental_div_mod(n, width);
    lemma_mod_bound(n, width);
    let q = n / width;
    let w = width;
    assert(q * w == w * q) by (nonlinear_arith);
    assert(q * (2 * w) == 2 * (q * w)) by (nonlinear_arith);
    assert(0 <= q) by (nonlinear_arith)
        requires
            w * q + n % w == n,
            n % w < w,
            w > 0,
            n >= 0,
    ;
    let c = STEPS as int / w;
    assert(c * w == STEPS);
    assert(q < c) by (nonlinear_arith)
        requires
            w * q <= n,
            n < STEPS,
            c * w == STEPS,
            w > 0,
    ;
    assert(q * w + w <= c * w) by (nonlinear_arith)
        requires
            q + 1 <= c,
            w > 0,
    ;
}

/// Step `n` of a stage that adds and subtracts.
pub fn sum_step_at(width: usize, n: usize) -> (r: Step)
    requires
        is_width(width as int),
        n < STEPS,
    ensures
        r == sum_step(width as int, n as int),
        r.first < HCA_SAMPLES_PER_SUBFRAME,
        r.second < HCA_SAMPLES_PER_SUBFRAME,
        r.low < HCA_SAMPLES_PER_SUBFRAME,
        r.high < HCA_SAMPLES_PER_SUBFRAME,
{
    proof {
        block_lies(width as int, n as int);
    }
    let at: usize = n / width * (2 * width) + n % width;
    Step { first: 2 * n, second: 2 * n + 1, low: at, high: at + width }
}

/// Step `n` of a stage that rotates.
pub fn turn_step_at(width: usize, n: usize) -> (r: Step)
    requires
        is_width(width as int),
        n < STEPS,
    ensures
        r == turn_step(width as int, n as int),
        r.first < HCA_SAMPLES_PER_SUBFRAME,
        r.second < HCA_SAMPLES_PER_SUBFRAME,
        r.low < HCA_SAMPLES_PER_SUBFRAME,
        r.high < HCA_SAMPLES_PER_SUBFRAME,
{
    proof {
        block_lies(width as int, n as int);
    }
    let start: usize = n / width * (2 * width);
    let k: usize = n % width;
    Step {
        first: start + k,
        second: start + k + width,
        low: start + k,
        high: start + 2 * width - 1 - k,
    }
}

/// Whether two steps have no place in common, among those they read and among
/// those they write, and neither has one twice.
pub open spec fn apart(a: Step, b: Step) -> bool {
    &&& a.first != b.first && a.first != b.second && a.second != b.first && a.second != b.second
    &&& a.low != b.low && a.low != b.high && a.high != b.low && a.high != b.high
}

/// Whether a step reads two values and writes two, all within a subframe.
pub open spec fn sound(s: Step) -> bool {
    &&& s.first < HCA_SAMPLES_PER_SUBFRAME && s.second < HCA_SAMPLES_PER_SUBFRAME
    &&& s.low < HCA_SAMPLES_PER_SUBFRAME && s.high < HCA_SAMPLES_PER_SUBFRAME
    &&& s.first != s.second && s.low != s.high
}

/// A stage reads each of the 128 values once and writes each once: its 64
/// steps read two and write two each, and no two steps share a place.
pub proof fn stages_cover(width: int, m: int, n: int)
    requires
        is_width(width),
        0 <= m < STEPS,
        0 <= n < STEPS,
        m != n,
    ensures
        sound(sum_step(width, m)),
        sound(turn_step(width, m)),
        apart(sum_step(width, m), sum_step(width, n)),
        apart(turn_step(width, m), turn_step(width, n)),
{
    block_lies(width, m);
    block_lies(width, n);
    let (p, q) = (m / width, n / width);
    if p < q {
        blocks_apart(width, p, q);
    } else if q < p {
        blocks_apart(width, q, p);
    }
}

proof fn blocks_apart(width: int, p: int, q: int)
    requires
        width > 0,
        p < q,
    ensures
        p * width + width <= q * width,
{
    assert(p * width + width <= q * width) by (nonlinear_arith)
        requires
            p + 1 <= q,
            width > 0,
    ;
}

} // verus!
