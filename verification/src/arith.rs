//! Fixed-point arithmetic on raw integers.
//!
//! A fixed-point number with `p` fractional bits is stored as the integer
//! `raw`, and stands for the rational `raw / 2^p`. Products are brought back to
//! `p` fractional bits by a division that rounds toward zero.

use vstd::arithmetic::power2::{
    lemma2_to64_rest, lemma_pow2_pos, lemma_pow2_strictly_increases, pow2,
};
use vstd::bits::lemma_u64_shl_is_mul;
use vstd::prelude::*;

verus! {

/// The largest number of fractional bits a fixed-point value may carry.
pub const MAX_PRECISION: u32 = 60;

/// The raw value of the number one at the given precision.
pub open spec fn unit(precision: nat) -> int {
    pow2(precision) as int
}

/// Division that rounds toward zero.
pub open spec fn quot(n: int, d: int) -> int {
    if n >= 0 {
        n / d
    } else {
        -((-n) / d)
    }
}

/// The fixed-point product of two raw values that share the unit `one`.
pub open spec fn fixed_mul(a: int, b: int, one: int) -> int {
    quot(a * b, one)
}

/// The raw value of one lies between 1 and 2^60 at every admissible precision.
pub proof fn lemma_unit_bounds(precision: nat)
    requires
        precision <= MAX_PRECISION,
    ensures
        1 <= unit(precision) <= 0x1000_0000_0000_0000,
{
    lemma_pow2_pos(precision);
    lemma2_to64_rest();
    if precision < 60 {
        lemma_pow2_strictly_increases(precision, 60);
    }
}

/// Rounding toward zero commutes with negation.
pub proof fn lemma_quot_negate(n: int, d: int)
    requires
        d > 0,
    ensures
        quot(-n, d) == -quot(n, d),
{
    if n == 0 {
        assert(0int / d == 0) by (nonlinear_arith)
            requires
                d > 0,
        ;
    }
}

/// A quotient is no larger in magnitude than a bound on its numerator
/// divided by the same divisor.
pub proof fn lemma_quot_bound(n: int, d: int, k: int)
    requires
        d > 0,
        k >= 0,
        -(k * d) <= n <= k * d,
    ensures
        -k <= quot(n, d) <= k,
{
    if n >= 0 {
        assert(n / d <= k && n / d >= 0) by (nonlinear_arith)
            requires
                d > 0,
                0 <= n <= k * d,
        ;
    } else {
        assert((-n) / d <= k && (-n) / d >= 0) by (nonlinear_arith)
            requires
                d > 0,
                0 <= -n <= k * d,
        ;
    }
}

/// An exact multiple divides without rounding.
pub proof fn lemma_quot_exact(k: int, d: int)
    requires
        d > 0,
    ensures
        quot(k * d, d) == k,
{
    if k >= 0 {
        assert(k * d >= 0 && (k * d) / d == k) by (nonlinear_arith)
            requires
                d > 0,
                k >= 0,
        ;
    } else {
        assert(k * d < 0 && (-(k * d)) / d == -k) by (nonlinear_arith)
            requires
                d > 0,
                k < 0,
        ;
    }
}

/// The raw value of one at `precision` fractional bits.
pub fn unit_of(precision: u32) -> (one: i64)
    requires
        precision <= MAX_PRECISION,
    ensures
        one == unit(precision as nat),
        1 <= one <= 0x1000_0000_0000_0000,
{
    proof {
        lemma_unit_bounds(precision as nat);
        lemma_u64_shl_is_mul(1u64, precision as u64);
    }
    let shifted: u64 = 1u64 << (precision as u64);
    shifted as i64
}

/// The fixed-point product of `a` and `b`, rounded toward zero.
pub fn mul_fixed(a: i64, b: i64, one: i64) -> (product: i128)
    requires
        one > 0,
    ensures
        product == fixed_mul(a as int, b as int, one as int),
{
    assert(-0x4000_0000_0000_0000_0000_0000_0000_0000 <= a * b
        <= 0x4000_0000_0000_0000_0000_0000_0000_0000) by (nonlinear_arith)
        requires
            -0x8000_0000_0000_0000 <= a <= 0x8000_0000_0000_0000,
            -0x8000_0000_0000_0000 <= b <= 0x8000_0000_0000_0000,
    ;
    let wide: i128 = (a as i128) * (b as i128);
    wide / (one as i128)
}

} // verus!
