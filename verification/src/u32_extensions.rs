//! Small integer helpers: most-significant-bit position, base-2 logarithm,
//! absolute difference and power-of-two testing, together with the lemmas
//! that relate the bit position of a number to powers of two.

use vstd::arithmetic::power2::{
    pow2, lemma_pow2_unfold, lemma_pow2_adds, lemma_pow2_pos, lemma_pow2_strictly_increases,
};
use vstd::prelude::*;

verus! {

/// Position of the most significant set bit, counted from 1; 0 for x == 0.
pub open spec fn spec_msb(x: nat) -> nat
    decreases x,
{
    if x == 0 {
        0
    } else {
        1 + spec_msb(x / 2)
    }
}

/// `n` is an exact power of two.
pub open spec fn spec_is_pow2(n: nat) -> bool
    decreases n,
{
    if n == 0 {
        false
    } else if n == 1 {
        true
    } else {
        n % 2 == 0 && spec_is_pow2(n / 2)
    }
}

/// A number is bracketed by the powers of two around its top bit position.
pub proof fn lemma_msb_bounds(x: nat)
    requires
        x >= 1,
    ensures
        spec_msb(x) >= 1,
        pow2((spec_msb(x) - 1) as nat) <= x < pow2(spec_msb(x)),
    decreases x,
{
    if x == 1 {
        assert(spec_msb(0nat) == 0);
        vstd::arithmetic::power2::lemma2_to64();
    } else {
        lemma_msb_bounds(x / 2);
        let m = spec_msb(x / 2);
        lemma_pow2_unfold((m + 1) as nat);
        if m >= 1 {
            lemma_pow2_unfold(m);
        } else {
            vstd::arithmetic::power2::lemma2_to64();
        }
    }
}

/// Conversely, the bracket determines the top bit position.
pub proof fn lemma_msb_of_range(x: nat, m: nat)
    requires
        pow2(m) <= x < pow2(m + 1),
    ensures
        spec_msb(x) == m + 1,
    decreases m,
{
    lemma_pow2_pos(m);
    if m == 0 {
        vstd::arithmetic::power2::lemma2_to64();
        assert(x == 1);
        assert(spec_msb(0nat) == 0);
    } else {
        lemma_pow2_unfold(m);
        lemma_pow2_unfold((m + 1) as nat);
        lemma_msb_of_range(x / 2, (m - 1) as nat);
    }
}

/// An exact power of two is `pow2` of some exponent, namely `msb - 1`.
pub proof fn lemma_is_pow2_as_pow2(n: nat)
    requires
        spec_is_pow2(n),
    ensures
        n >= 1,
        n == pow2((spec_msb(n) - 1) as nat),
    decreases n,
{
    if n == 1 {
        assert(spec_msb(0nat) == 0);
        vstd::arithmetic::power2::lemma2_to64();
    } else {
        lemma_is_pow2_as_pow2(n / 2);
        lemma_msb_bounds(n);
        lemma_msb_bounds(n / 2);
        let m = spec_msb(n / 2);
        assert(spec_msb(n) == 1 + m);
        lemma_pow2_unfold(m);
    }
}

/// Position of the most significant set bit of `x`, counted from 1
/// (so 32 for values with the top bit set, 0 for `x == 0`).
pub fn get_most_significant_bit(x: u32) -> (r: u32)
    ensures
        r == spec_msb(x as nat),
        r <= 32,
{
    let mut v: u32 = x;
    let mut r: u32 = 0;
    proof {
        lemma_msb_le_32(x as nat);
    }
    while v > 0
        invariant
            spec_msb(x as nat) == r + spec_msb(v as nat),
            r + spec_msb(v as nat) <= 32,
        decreases v,
    {
        v = v / 2;
        r = r + 1;
    }
    r
}

/// A bound on a value bounds its top bit position.
pub proof fn lemma_msb_le(x: nat, k: nat)
    requires
        x < pow2(k),
    ensures
        spec_msb(x) <= k,
{
    if x >= 1 {
        lemma_msb_bounds(x);
        if spec_msb(x) > k {
            if spec_msb(x) - 1 > k {
                lemma_pow2_strictly_increases(k, (spec_msb(x) - 1) as nat);
            }
        }
    }
}

/// Any 32-bit value has its top bit within the first 32 positions.
pub proof fn lemma_msb_le_32(x: nat)
    requires
        x < 0x1_0000_0000,
    ensures
        spec_msb(x) <= 32,
{
    assert(pow2(32) == 0x1_0000_0000) by {
        vstd::arithmetic::power2::lemma2_to64();
    }
    lemma_msb_le(x, 32);
}

/// Base-2 logarithm, rounded down: one less than the top bit position.
pub fn log_2(x: u32) -> (r: u32)
    requires
        x >= 1,
    ensures
        r == spec_msb(x as nat) - 1,
{
    proof {
        lemma_msb_bounds(x as nat);
    }
    get_most_significant_bit(x) - 1
}

/// Absolute difference of two unsigned values.
pub fn subtract_abs(x: u32, y: u32) -> (r: u32)
    ensures
        r == vstd::math::abs(x as int - y as int),
{
    if x > y {
        x - y
    } else {
        y - x
    }
}

/// True exactly when `x` is a power of two.
pub fn is_power_of_2(x: u32) -> (r: bool)
    ensures
        r == spec_is_pow2(x as nat),
{
    let mut v: u32 = x;
    if v == 0 {
        return false;
    }
    while v > 1
        invariant
            v >= 1,
            spec_is_pow2(x as nat) == spec_is_pow2(v as nat),
        decreases v,
    {
        if v % 2 == 1 {
            return false;
        }
        v = v / 2;
    }
    true
}

} // verus!
