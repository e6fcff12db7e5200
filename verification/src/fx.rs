//! Fixed-point coordinate arithmetic.
//!
//! Every coordinate, duration and fraction in this crate is an `i64` count of
//! millionths of a unit, so that the decimal values the record formats carry
//! can be held and transformed exactly, without floating point.

use vstd::prelude::*;
use vstd::arithmetic::div_mod::lemma_div_multiples_vanish;

verus! {

/// Millionths of a unit per unit.
pub const SCALE: i64 = 1_000_000;

/// Truncating (round-toward-zero) division, the rounding rule used for every
/// fixed-point quotient in this crate.
pub open spec fn tdiv(a: int, b: int) -> int {
    if a >= 0 {
        a / b
    } else {
        -((-a) / b)
    }
}

/// Truncating division of machine integers.
pub fn div_trunc(a: i64, b: i64) -> (r: i64)
    requires
        b > 0,
        a > i64::MIN,
    ensures
        r == tdiv(a as int, b as int),
{
    if a >= 0 {
        let q: u64 = (a as u64) / (b as u64);
        q as i64
    } else {
        let m: u64 = ((-a) as u64) / (b as u64);
        assert(m <= (-(a as int)));
        -(m as i64)
    }
}

/// `tdiv(a * b, c)` computed through a 128-bit product, so that the scaling
/// multiplications of the coordinate transform cannot overflow.
pub fn mul_div_trunc(a: i64, b: i64, c: i64) -> (r: i64)
    requires
        c > 0,
        -(i64::MAX as int) <= tdiv(a as int * b as int, c as int) <= i64::MAX as int,
    ensures
        r == tdiv(a as int * b as int, c as int),
{
    proof {
        assert(-0x40000000000000000000000000000000 <= a as int * b as int
            <= 0x40000000000000000000000000000000) by (nonlinear_arith)
            requires
                -0x8000000000000000 <= a as int <= 0x7fffffffffffffff,
                -0x8000000000000000 <= b as int <= 0x7fffffffffffffff,
        ;
    }
    let p: i128 = (a as i128) * (b as i128);
    if p >= 0 {
        let q: u128 = (p as u128) / (c as u128);
        assert(q == tdiv(a as int * b as int, c as int));
        q as i64
    } else {
        let m: u128 = ((-p) as u128) / (c as u128);
        assert(-(m as int) == tdiv(a as int * b as int, c as int));
        -(m as i64)
    }
}

/// Addition clamped to the `i64` range, the fixed-point analogue of a float
/// running off to infinity.
pub open spec fn sat_add(a: int, b: int) -> int {
    if a + b > i64::MAX as int {
        i64::MAX as int
    } else if a + b < i64::MIN as int {
        i64::MIN as int
    } else {
        a + b
    }
}

/// Saturating addition of machine integers.
pub fn add_sat(a: i64, b: i64) -> (r: i64)
    ensures
        r == sat_add(a as int, b as int),
{
    let s: i128 = a as i128 + b as i128;
    if s > i64::MAX as i128 {
        i64::MAX
    } else if s < i64::MIN as i128 {
        i64::MIN
    } else {
        s as i64
    }
}

/// `tdiv(a - b, c)` computed through a 128-bit difference; the divisor of at
/// least two keeps the quotient inside `i64` for any operands.
pub fn sub_div_trunc(a: i64, b: i64, c: i64) -> (r: i64)
    requires
        c >= 2,
    ensures
        r == tdiv(a as int - b as int, c as int),
{
    let p: i128 = a as i128 - b as i128;
    if p >= 0 {
        let q: u128 = (p as u128) / (c as u128);
        proof {
            assert(q <= (p as int) / 2) by (nonlinear_arith)
                requires p >= 0 && c >= 2 && q == (p as int) / (c as int);
        }
        q as i64
    } else {
        let m: u128 = ((-p) as u128) / (c as u128);
        proof {
            assert(m <= (-(p as int)) / 2) by (nonlinear_arith)
                requires p < 0 && c >= 2 && m == (-(p as int)) / (c as int);
        }
        -(m as i64)
    }
}

/// Truncating division by a positive divisor leaves an exact multiple intact.
pub proof fn lemma_tdiv_exact(x: int, d: int)
    requires
        d > 0,
    ensures
        tdiv(x * d, d) == x,
{
    if x >= 0 {
        assert(x * d >= 0) by (nonlinear_arith)
            requires x >= 0 && d > 0;
        lemma_div_multiples_vanish(x, d);
        assert(x * d == d * x) by (nonlinear_arith);
    } else {
        assert(x * d < 0) by (nonlinear_arith)
            requires x < 0 && d > 0;
        assert(-(x * d) == d * (-x)) by (nonlinear_arith);
        lemma_div_multiples_vanish(-x, d);
    }
}

/// Multiplying a truncating quotient back by the divisor lands within one
/// divisor of the dividend.
pub proof fn lemma_tdiv_mul_close(x: int, d: int)
    requires
        d > 0,
    ensures
        -d < tdiv(x, d) * d - x < d,
{
    if x >= 0 {
        vstd::arithmetic::div_mod::lemma_fundamental_div_mod(x, d);
        vstd::arithmetic::div_mod::lemma_mod_bound(x, d);
        assert((x / d) * d == d * (x / d)) by (nonlinear_arith);
    } else {
        vstd::arithmetic::div_mod::lemma_fundamental_div_mod(-x, d);
        vstd::arithmetic::div_mod::lemma_mod_bound(-x, d);
        assert((-((-x) / d)) * d == -(d * ((-x) / d))) by (nonlinear_arith);
    }
}

/// The magnitude of a truncating quotient never exceeds the magnitude of the
/// dividend, for divisors of at least one.
pub proof fn lemma_tdiv_bound(a: int, b: int)
    requires
        b > 0,
    ensures
        tdiv(a, b) <= (if a >= 0 { a } else { -a }),
        tdiv(a, b) >= -(if a >= 0 { a } else { -a }),
{
    if a >= 0 {
        assert(a / b <= a) by (nonlinear_arith)
            requires a >= 0 && b > 0;
        assert(a / b >= 0) by (nonlinear_arith)
            requires a >= 0 && b > 0;
    } else {
        assert((-a) / b <= -a) by (nonlinear_arith)
            requires a < 0 && b > 0;
        assert((-a) / b >= 0) by (nonlinear_arith)
            requires a < 0 && b > 0;
    }
}

} // verus!
