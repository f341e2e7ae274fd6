//! How the blocks of a stream are shared out among threads.

use vstd::prelude::*;

verus! {

/// Blocks per unit of work.
pub const CHUNK_BLOCKS: usize = 32;

/// The number of threads to use: one where none is asked for, all cores for
/// zero, or one where their number is not known.
pub fn resolve_threads(threads: Option<usize>, cores: Option<usize>) -> (r: usize)
    ensures
        r == match (threads, cores) {
            (None, _) => 1,
            (Some(0), Some(n)) => n,
            (Some(0), None) => 1,
            (Some(n), _) => n,
        },
{
    match threads {
        None => 1,
        Some(0) => match cores {
            Some(n) => n,
            None => 1,
        },
        Some(n) => n,
    }
}

/// The units of work of a stream.
pub open spec fn units(block_count: int) -> int {
    (block_count + CHUNK_BLOCKS - 1) / CHUNK_BLOCKS as int
}

/// The first block of a unit; of the unit behind the last one, the number of
/// blocks.
pub open spec fn unit_start(unit: int, block_count: int) -> int {
    if unit * CHUNK_BLOCKS <= block_count { unit * CHUNK_BLOCKS } else { block_count }
}

/// The units of work of a stream.
pub fn work_units(block_count: usize) -> (r: usize)
    ensures
        r == units(block_count as int),
{
    let whole: usize = block_count / CHUNK_BLOCKS;
    if block_count % CHUNK_BLOCKS == 0 {
        whole
    } else {
        whole + 1
    }
}

/// The blocks `lo..hi` of a unit.
pub fn unit_blocks(unit: usize, block_count: usize) -> (r: (usize, usize))
    requires
        unit < units(block_count as int),
    ensures
        r.0 == unit_start(unit as int, block_count as int) == unit * CHUNK_BLOCKS,
        r.1 == unit_start(unit + 1, block_count as int),
        r.0 < r.1 <= block_count,
{
    let lo: usize = unit * CHUNK_BLOCKS;
    let hi: usize = if block_count - lo > CHUNK_BLOCKS { lo + CHUNK_BLOCKS } else { block_count };
    (lo, hi)
}

/// The block whose decoding prepares the overlap of a unit that starts at
/// `lo`; the first unit starts from silence.
pub fn seed_block(lo: usize) -> (r: Option<usize>)
    ensures
        r == if lo == 0 { None } else { Some((lo - 1) as usize) },
{
    if lo == 0 {
        None
    } else {
        Some(lo - 1)
    }
}

/// The threads that have a unit to work on.
pub fn worker_count(threads: usize, unit_count: usize) -> (r: usize)
    ensures
        r == if threads < unit_count { threads } else { unit_count },
{
    if threads < unit_count {
        threads
    } else {
        unit_count
    }
}

/// What the blocks `lo..hi` give, one after the other.
pub open spec fn blocks_joined(f: spec_fn(int) -> Seq<u8>, lo: int, hi: int) -> Seq<u8>
    decreases hi - lo,
{
    if hi <= lo {
        Seq::empty()
    } else {
        blocks_joined(f, lo, hi - 1) + f(hi - 1)
    }
}

/// What the first `k` units give, one after the other.
pub open spec fn units_joined(f: spec_fn(int) -> Seq<u8>, block_count: int, k: nat) -> Seq<u8>
    decreases k,
{
    if k == 0 {
        Seq::empty()
    } else {
        units_joined(f, block_count, (k - 1) as nat) + blocks_joined(
            f,
            unit_start(k - 1, block_count),
            unit_start(k as int, block_count),
        )
    }
}

proof fn blocks_split(f: spec_fn(int) -> Seq<u8>, lo: int, mid: int, hi: int)
    requires
        lo <= mid <= hi,
    ensures
        blocks_joined(f, lo, hi) == blocks_joined(f, lo, mid) + blocks_joined(f, mid, hi),
    decreases hi - mid,
{
    if mid < hi {
        blocks_split(f, lo, mid, hi - 1);
        assert(blocks_joined(f, lo, hi) =~= blocks_joined(f, lo, mid) + blocks_joined(f, mid, hi));
    } else {
        assert(blocks_joined(f, lo, hi) =~= blocks_joined(f, lo, mid) + Seq::empty());
    }
}

proof fn units_reach(f: spec_fn(int) -> Seq<u8>, block_count: int, k: nat)
    requires
        0 <= block_count,
    ensures
        units_joined(f, block_count, k) == blocks_joined(f, 0, unit_start(k as int, block_count)),
    decreases k,
{
    if k > 0 {
        units_reach(f, block_count, (k - 1) as nat);
        blocks_split(f, 0, unit_start(k - 1, block_count), unit_start(k as int, block_count));
    }
}

/// The units of a stream, one after the other, give what its blocks give: each
/// block once and in order, whatever a block gives.
pub proof fn units_give_all(f: spec_fn(int) -> Seq<u8>, block_count: int)
    requires
        0 <= block_count,
    ensures
        units_joined(f, block_count, units(block_count) as nat) == blocks_joined(
            f,
            0,
            block_count,
        ),
{
    units_reach(f, block_count, units(block_count) as nat);
}

} // verus!
