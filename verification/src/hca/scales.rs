//! Scale factors and intensities of a frame. Sizes are numbers not below zero,
//! given by the bits of single-precision numbers, whose order is that of the
//! numbers.

use vstd::prelude::*;

verus! {

/// Whether sizes do not fall.
pub open spec fn ascending(sizes: Seq<u32>) -> bool {
    forall|i: int, j: int| 0 <= i <= j < sizes.len() ==> #[trigger] sizes[i] <= #[trigger] sizes[j]
}

/// The first of the places from `i` on whose size is above a value; at most
/// the last one.
pub open spec fn first_above(sizes: Seq<u32>, value: u32, i: nat) -> nat
    decreases sizes.len() - i,
{
    if i + 1 >= sizes.len() || sizes[i as int] > value {
        i
    } else {
        first_above(sizes, value, i + 1)
    }
}

proof fn above_is_first(sizes: Seq<u32>, value: u32, i: nat, r: nat)
    requires
        i <= r < sizes.len(),
        forall|j: int| i <= j < r ==> #[trigger] sizes[j] <= value,
        r + 1 == sizes.len() || sizes[r as int] > value,
    ensures
        first_above(sizes, value, i) == r,
    decreases r - i,
{
    if i < r {
        assert(sizes[i as int] <= value);
        above_is_first(sizes, value, i + 1, r);
    }
}

/// The scale factor of a value: the first whose size is above it.
pub fn find_scale_factor(sizes: &[u32; 64], value: u32) -> (r: u8)
    requires
        ascending(sizes@),
    ensures
        r == first_above(sizes@, value, 0),
        r < 64,
{
    let mut low: usize = 0;
    let mut high: usize = 63;
    while low < high
        invariant
            low <= high <= 63,
            ascending(sizes@),
            forall|j: int| 0 <= j < low ==> #[trigger] sizes@[j] <= value,
            high == 63 || sizes@[high as int] > value,
        decreases high - low,
    {
        let mid: usize = (low + high) / 2;
        if sizes[mid] <= value {
            assert forall|j: int| 0 <= j < mid + 1 implies #[trigger] sizes@[j] <= value by {
                assert(sizes@[j] <= sizes@[mid as int]);
            }
            low = mid + 1;
        } else {
            high = mid;
        }
    }
    proof {
        above_is_first(sizes@, value, 0, low as nat);
    }
    low as u8
}

/// The intensity of a ratio, from `v` on: the first whose bound is below the
/// ratio; at most 13.
pub open spec fn intensity_from(bounds: Seq<u32>, ratio: u32, v: nat) -> nat
    decreases 13 - v,
{
    if v < 13 && bounds[v as int] >= ratio {
        intensity_from(bounds, ratio, v + 1)
    } else {
        v
    }
}

/// The intensity of a ratio, at least one.
pub fn intensity_of_ratio(bounds: &[u32; 14], ratio: u32) -> (r: u8)
    ensures
        r == intensity_from(bounds@, ratio, 1),
        1 <= r <= 13,
{
    let mut v: usize = 1;
    while v < 13 && bounds[v] >= ratio
        invariant
            1 <= v <= 13,
            intensity_from(bounds@, ratio, 1) == intensity_from(bounds@, ratio, v as nat),
        decreases 13 - v,
    {
        v += 1;
    }
    v as u8
}

} // verus!
