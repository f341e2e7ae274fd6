//! Single-precision numbers, held by their bits.

use vstd::prelude::*;
use vstd::arithmetic::power2::pow2;

verus! {

/// The bits of the number one.
pub const ONE: u32 = 0x3f80_0000;

/// The whole part of a number times a power of two, within the 32-bit range;
/// zero for what is no number.
pub open spec fn float_trunc(bits: u32, shift: nat) -> i32 {
    let exponent = bits / 0x80_0000 % 0x100;
    let fraction = bits % 0x80_0000;
    let negative = bits >= 0x8000_0000;
    if exponent == 255 && fraction != 0 || exponent + shift < 127 {
        0
    } else if exponent + shift >= 158 {
        if negative { i32::MIN } else { i32::MAX }
    } else {
        let size = (0x80_0000 + fraction) * pow2((exponent + shift - 127) as nat) as int
            / 0x80_0000;
        if negative { (-size) as i32 } else { size as i32 }
    }
}

/// The whole part of a number times a power of two.
pub fn truncate_float(bits: u32, shift: u32) -> (r: i32)
    requires
        shift <= 64,
    ensures
        r == float_trunc(bits, shift as nat),
{
    let exponent: u32 = bits / 0x80_0000 % 0x100;
    let fraction: u32 = bits % 0x80_0000;
    let negative: bool = bits >= 0x8000_0000;
    if exponent == 255 && fraction != 0 || exponent + shift < 127 {
        return 0;
    }
    if exponent + shift >= 158 {
        return if negative { i32::MIN } else { i32::MAX };
    }
    let n: u32 = exponent + shift - 127;
    let mut power: u64 = 1;
    let mut i: u32 = 0;
    proof {
        vstd::arithmetic::power2::lemma2_to64();
    }
    while i < n
        invariant
            i <= n <= 30,
            power == pow2(i as nat),
            power <= 0x4000_0000,
        decreases n - i,
    {
        proof {
            vstd::arithmetic::power2::lemma_pow2_unfold((i + 1) as nat);
            vstd::arithmetic::power2::lemma2_to64();
            if i + 1 < 30 {
                vstd::arithmetic::power2::lemma_pow2_strictly_increases((i + 1) as nat, 30);
            }
        }
        power = power * 2;
        i += 1;
    }
    let whole: u64 = 0x80_0000 + fraction as u64;
    assert(whole * power < 0x100_0000 * 0x4000_0000) by (nonlinear_arith)
        requires
            whole < 0x100_0000,
            1 <= power <= 0x4000_0000,
    ;
    assert(1 <= power) by {
        vstd::arithmetic::power2::lemma_pow2_pos(n as nat);
    }
    let size: i64 = (whole * power / 0x80_0000) as i64;
    if negative {
        (-size) as i32
    } else {
        size as i32
    }
}

/// Whether a number lies between -1 and 1.
pub open spec fn in_unit(bits: u32) -> bool {
    bits % 0x8000_0000 <= ONE
}

} // verus!
