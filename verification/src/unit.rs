//! Shares of one, in parts per billion.
//!
//! Scores and similarities are decimals between zero and one. They are held as
//! whole parts per billion, so a weight such as `0.32` and a threshold such as
//! `0.88` are exact, and every rounding is to the nearest part.

use vstd::arithmetic::power2::*;
use vstd::prelude::*;

verus! {

/// The whole: one billion parts.
pub const ONE: u64 = 1_000_000_000;

/// `n / d` to the nearest whole number, a half rounding up.
pub open spec fn nearest(n: int, d: int) -> int {
    (2 * n + d) / (2 * d)
}

/// `n / d` to the nearest whole number, a half rounding up.
pub fn round_div(n: u128, d: u128) -> (r: u128)
    requires
        0 < d,
        2 * n + d <= u128::MAX,
        2 * d <= u128::MAX,
    ensures
        r == nearest(n as int, d as int),
{
    (2 * n + d) / (2 * d)
}

/// A quotient no larger than a whole number does not round above it.
pub proof fn lemma_nearest_bound(n: int, d: int, top: int)
    requires
        0 < d,
        0 <= n <= top * d,
    ensures
        0 <= nearest(n, d) <= top,
{
    let q = nearest(n, d);
    vstd::arithmetic::div_mod::lemma_fundamental_div_mod(2 * n + d, 2 * d);
    vstd::arithmetic::div_mod::lemma_mod_bound(2 * n + d, 2 * d);
    assert(2 * d * q <= 2 * top * d + d) by (nonlinear_arith)
        requires
            2 * d * q <= 2 * n + d,
            n <= top * d,
    ;
    assert(q <= top) by (nonlinear_arith)
        requires
            0 < d,
            2 * d * q <= 2 * top * d + d,
    ;
    assert(0 <= q) by (nonlinear_arith)
        requires
            0 < d,
            0 <= n,
            2 * d * q > n + n + d - 2 * d,
    ;
}

/// The number that a 64-bit floating-point pattern stands for, as a share: a
/// negative one is nothing, one or more is the whole.
pub open spec fn share_of_bits(bits: u64) -> int {
    let exponent = bits as int / 0x10_0000_0000_0000 % 2048;
    let fraction = bits as int % 0x10_0000_0000_0000;
    if bits >= 0x8000_0000_0000_0000 {
        0
    } else if exponent >= 1023 {
        ONE as int
    } else if exponent == 0 {
        nearest(fraction * ONE, pow2(1074) as int)
    } else {
        nearest((0x10_0000_0000_0000 + fraction) * ONE, pow2((1075 - exponent) as nat) as int)
    }
}

/// Every pattern stands for a share of one.
pub proof fn lemma_share_of_bits(bits: u64)
    ensures
        0 <= share_of_bits(bits) <= ONE,
{
    let exponent = bits as int / 0x10_0000_0000_0000 % 2048;
    let fraction = bits as int % 0x10_0000_0000_0000;
    if bits < 0x8000_0000_0000_0000 && exponent < 1023 {
        lemma_pow2_values();
        let shift: nat = if exponent == 0 {
            1074
        } else {
            (1075 - exponent) as nat
        };
        let significand = if exponent == 0 {
            fraction
        } else {
            0x10_0000_0000_0000 + fraction
        };
        lemma_pow2_strictly_increases_or_equal(53, shift);
        lemma_nearest_bound(significand * ONE, pow2(shift) as int, ONE as int);
    }
}

/// The number that a 64-bit floating-point pattern stands for, as a share.
pub fn share_from_bits(bits: u64) -> (r: u64)
    ensures
        r == share_of_bits(bits),
        r <= ONE,
{
    if bits >= 0x8000_0000_0000_0000 {
        return 0;
    }
    let exponent: u64 = bits / 0x10_0000_0000_0000 % 2048;
    let fraction: u64 = bits % 0x10_0000_0000_0000;
    if exponent >= 1023 {
        return ONE;
    }
    let significand: u64 = if exponent == 0 {
        fraction
    } else {
        0x10_0000_0000_0000 + fraction
    };
    let shift: u64 = if exponent == 0 {
        1074
    } else {
        1075 - exponent
    };
    let scaled: u128 = significand as u128 * ONE as u128;
    assert(scaled == significand * ONE);
    proof {
        lemma_pow2_strictly_increases_or_equal(53, shift as nat);
        lemma_pow2_values();
        lemma_nearest_bound(scaled as int, pow2(shift as nat) as int, ONE as int);
    }
    if shift >= 85 {
        proof {
            lemma_pow2_strictly_increases_or_equal(85, shift as nat);
            let d = pow2(shift as nat) as int;
            assert(2 * scaled + d < 2 * d);
            assert((2 * scaled + d) / (2 * d) == 0) by {
                vstd::arithmetic::div_mod::lemma_basic_div(2 * scaled + d, 2 * d);
            }
        }
        return 0;
    }
    let mut power: u128 = 1;
    let mut k: u64 = 0;
    proof {
        lemma2_to64();
    }
    while k < shift
        invariant
            k <= shift < 85,
            power == pow2(k as nat),
        decreases shift - k,
    {
        proof {
            lemma_pow2_unfold((k + 1) as nat);
            lemma_pow2_strictly_increases_or_equal((k + 1) as nat, 85);
            lemma_pow2_values();
        }
        power = power * 2;
        k = k + 1;
    }
    proof {
        lemma_pow2_strictly_increases_or_equal(shift as nat, 85);
    }
    round_div(scaled, power) as u64
}

proof fn lemma_pow2_strictly_increases_or_equal(a: nat, b: nat)
    requires
        a <= b,
    ensures
        0 < pow2(a) <= pow2(b),
{
    lemma_pow2_pos(a);
    if a < b {
        lemma_pow2_strictly_increases(a, b);
    }
}

proof fn lemma_pow2_values()
    ensures
        pow2(53) == 0x20_0000_0000_0000,
        pow2(85) == 0x20_0000_0000_0000_0000_0000,
{
    lemma2_to64();
    lemma2_to64_rest();
    lemma_pow2_adds(53, 32);
}

} // verus!
