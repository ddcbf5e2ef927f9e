//! Fixed-point scalars: the numeric ground the ray tracer is built on.
//!
//! A scalar is an `i64` counting steps of `1/SCALE`; a value `v` represents
//! the real number `v / SCALE`. Multiplication and division rescale their
//! exact integer result by truncating toward zero, which `tdiv` models.

use vstd::prelude::*;

verus! {

/// Number of fractional steps in one whole unit.
pub const SCALE: i64 = 65536;

/// Truncating (round-toward-zero) division: the rounding the executable
/// code performs whenever it rescales a product or a quotient.
pub open spec fn tdiv(a: int, b: int) -> int {
    let q = vstd::math::abs(a) as int / vstd::math::abs(b) as int;
    if (a >= 0) == (b >= 0) {
        q
    } else {
        -q
    }
}

/// The model of fixed-point multiplication: rescale the exact product.
pub open spec fn fx_mul(a: int, b: int) -> int {
    tdiv(a * b, SCALE as int)
}

/// The model of fixed-point division: `a / b` carried out at full precision
/// on the scaled numerator.
pub open spec fn fx_div(a: int, b: int) -> int {
    tdiv(a * (SCALE as int), b)
}

/// Floor of the square root of a nonnegative integer.
pub open spec fn sqrt_floor(n: int) -> int
    decreases n,
{
    if n <= 0 {
        0
    } else {
        let p = sqrt_floor(n - 1);
        if (p + 1) * (p + 1) <= n {
            p + 1
        } else {
            p
        }
    }
}

/// `sqrt_floor` is characterized by its two defining inequalities.
pub proof fn lemma_sqrt_floor_bounds(n: int)
    requires
        n >= 0,
    ensures
        sqrt_floor(n) >= 0,
        sqrt_floor(n) * sqrt_floor(n) <= n,
        n < (sqrt_floor(n) + 1) * (sqrt_floor(n) + 1),
    decreases n,
{
    if n == 0 {
    } else {
        lemma_sqrt_floor_bounds(n - 1);
        let p = sqrt_floor(n - 1);
        if (p + 1) * (p + 1) <= n {
            assert(n <= (p + 1) * (p + 1)) by {
                assert(n - 1 < (p + 1) * (p + 1));
            }
            assert((p + 2) * (p + 2) > (p + 1) * (p + 1)) by (nonlinear_arith)
                requires
                    p >= 0,
            ;
        }
    }
}

/// Any integer satisfying the two defining inequalities is `sqrt_floor`.
pub proof fn lemma_sqrt_floor_unique(n: int, r: int)
    requires
        n >= 0,
        r >= 0,
        r * r <= n,
        n < (r + 1) * (r + 1),
    ensures
        r == sqrt_floor(n),
{
    lemma_sqrt_floor_bounds(n);
    let s = sqrt_floor(n);
    if r < s {
        assert((r + 1) * (r + 1) <= s * s) by (nonlinear_arith)
            requires
                0 <= r,
                r < s,
        ;
    }
    if s < r {
        assert((s + 1) * (s + 1) <= r * r) by (nonlinear_arith)
            requires
                0 <= s,
                s < r,
        ;
    }
}

/// `sqrt_floor` never shrinks when its argument grows.
pub proof fn lemma_sqrt_floor_monotone(a: int, b: int)
    requires
        0 <= a <= b,
    ensures
        sqrt_floor(a) <= sqrt_floor(b),
{
    lemma_sqrt_floor_bounds(a);
    lemma_sqrt_floor_bounds(b);
    let ra = sqrt_floor(a);
    let rb = sqrt_floor(b);
    if rb < ra {
        assert((rb + 1) * (rb + 1) <= ra * ra) by (nonlinear_arith)
            requires
                0 <= rb,
                rb < ra,
        ;
    }
}

/// Floor square root, by bisection over the 64-bit candidate range.
pub fn isqrt(n: u128) -> (r: u128)
    ensures
        r == sqrt_floor(n as int),
        r * r <= n < (r + 1) * (r + 1),
        r <= 0xFFFF_FFFF_FFFF_FFFF,
{
    let mut lo: u128 = 0;
    let mut hi: u128 = 0xFFFF_FFFF_FFFF_FFFF;
    assert((hi + 1) * (hi + 1) > n) by (nonlinear_arith)
        requires
            hi == 0xFFFF_FFFF_FFFF_FFFFu128,
            n <= u128::MAX,
    ;
    while lo < hi
        invariant
            lo <= hi <= 0xFFFF_FFFF_FFFF_FFFF,
            lo * lo <= n,
            n < (hi + 1) * (hi + 1),
        decreases hi - lo,
    {
        let mid: u128 = lo + (hi - lo + 1) / 2;
        assert(lo < mid <= hi);
        assert(mid * mid <= 0xFFFF_FFFF_FFFF_FFFFu128 * 0xFFFF_FFFF_FFFF_FFFFu128) by (nonlinear_arith)
            requires
                0 <= mid <= 0xFFFF_FFFF_FFFF_FFFFu128,
        ;
        if mid * mid <= n {
            lo = mid;
        } else {
            hi = mid - 1;
        }
    }
    proof {
        lemma_sqrt_floor_unique(n as int, lo as int);
    }
    lo
}

/// Truncating division by a positive divisor keeps the sign of the numerator
/// and never grows its magnitude.
pub proof fn lemma_tdiv_bounds(a: int, b: int)
    requires
        b >= 1,
    ensures
        a >= 0 ==> 0 <= tdiv(a, b) <= a,
        a <= 0 ==> a <= tdiv(a, b) <= 0,
{
    let m = vstd::math::abs(a) as int;
    vstd::arithmetic::div_mod::lemma_div_pos_is_pos(m, b);
    vstd::arithmetic::div_mod::lemma_div_nonincreasing(m, b);
}

/// A product is bounded by the product of the factors' bounds.
pub proof fn lemma_mul_bound(a: int, b: int, ca: int, cb: int)
    requires
        -ca <= a <= ca,
        -cb <= b <= cb,
    ensures
        -(ca * cb) <= a * b <= ca * cb,
{
    assert(-(ca * cb) <= a * b <= ca * cb) by (nonlinear_arith)
        requires
            -ca <= a <= ca,
            -cb <= b <= cb,
    ;
}

/// Truncating division by a positive divisor is monotone in the numerator.
pub proof fn lemma_tdiv_monotone(a: int, b: int, d: int)
    requires
        d >= 1,
        a <= b,
    ensures
        tdiv(a, d) <= tdiv(b, d),
{
    lemma_tdiv_bounds(a, d);
    lemma_tdiv_bounds(b, d);
    if a >= 0 && b >= 0 {
        vstd::arithmetic::div_mod::lemma_div_is_ordered(a, b, d);
    } else if a < 0 && b < 0 {
        vstd::arithmetic::div_mod::lemma_div_is_ordered(-b, -a, d);
    }
}

/// If the numerator is at most `b * c` in magnitude, truncating division by
/// `b` stays within `[-c, c]`.
pub proof fn lemma_tdiv_ratio_bound(a: int, b: int, c: int)
    requires
        b >= 1,
        c >= 0,
        vstd::math::abs(a) <= b * c,
    ensures
        -c <= tdiv(a, b) <= c,
{
    let m = vstd::math::abs(a) as int;
    vstd::arithmetic::div_mod::lemma_div_pos_is_pos(m, b);
    vstd::arithmetic::div_mod::lemma_div_is_ordered(m, b * c, b);
    vstd::arithmetic::div_mod::lemma_div_multiples_vanish(c, b);
}

/// If the numerator is strictly below `b * c` in magnitude, truncating
/// division by `b` stays strictly within `(-c, c)`.
pub proof fn lemma_tdiv_lt(a: int, b: int, c: int)
    requires
        b >= 1,
        c >= 1,
        vstd::math::abs(a) < b * c,
    ensures
        -c < tdiv(a, b) < c,
{
    let m = vstd::math::abs(a) as int;
    vstd::arithmetic::div_mod::lemma_div_pos_is_pos(m, b);
    vstd::arithmetic::div_mod::lemma_div_is_ordered(m, b * c - 1, b);
    assert(b * c - 1 == (c - 1) * b + (b - 1)) by (nonlinear_arith);
    vstd::arithmetic::div_mod::lemma_fundamental_div_mod_converse(b * c - 1, b, c - 1, b - 1);
}

/// Truncating division of a nonnegative numerator loses less than the
/// divisor: `b * tdiv(a, b)` falls in `(a - b, a]`.
pub proof fn lemma_tdiv_lower(a: int, b: int)
    requires
        a >= 0,
        b >= 1,
    ensures
        a - b < b * tdiv(a, b) <= a,
{
    vstd::arithmetic::div_mod::lemma_fundamental_div_mod(a, b);
    vstd::arithmetic::div_mod::lemma_mod_bound(a, b);
}

/// Truncating division recovers the numerator up to less than one divisor.
pub proof fn lemma_tdiv_remainder(a: int, b: int)
    requires
        b >= 1,
    ensures
        vstd::math::abs(a - b * tdiv(a, b)) < b,
{
    let m = vstd::math::abs(a) as int;
    vstd::arithmetic::div_mod::lemma_fundamental_div_mod(m, b);
    vstd::arithmetic::div_mod::lemma_mod_bound(m, b);
    if a < 0 {
        assert(b * tdiv(a, b) == -(b * (m / b))) by (nonlinear_arith)
            requires
                tdiv(a, b) == -(m / b),
        ;
    }
}

/// Division toward zero by a positive divisor, at 128-bit width.
pub fn div_i128(a: i128, b: i128) -> (q: i128)
    requires
        b > 0,
        a > i128::MIN,
    ensures
        q == tdiv(a as int, b as int),
{
    a / b
}

/// Fixed-point multiplication: the product at full width, rescaled.
pub fn mul_fx(a: i64, b: i64) -> (r: i64)
    requires
        i64::MIN <= fx_mul(a as int, b as int) <= i64::MAX,
    ensures
        r == fx_mul(a as int, b as int),
{
    assert(i128::MIN < (a as int) * (b as int) <= i128::MAX) by (nonlinear_arith)
        requires
            i64::MIN <= a <= i64::MAX,
            i64::MIN <= b <= i64::MAX,
    ;
    let wide: i128 = (a as i128) * (b as i128);
    let q = div_i128(wide, SCALE as i128);
    q as i64
}

/// Fixed-point division: the scaled numerator at full width, divided.
pub fn div_fx(a: i64, b: i64) -> (r: i64)
    requires
        b != 0,
        i64::MIN <= fx_div(a as int, b as int) <= i64::MAX,
    ensures
        r == fx_div(a as int, b as int),
{
    let wide: i128 = (a as i128) * (SCALE as i128);
    let q: i128 = if b > 0 {
        div_i128(wide, b as i128)
    } else {
        let flipped = div_i128(-wide, -(b as i128));
        proof {
            assert(flipped == tdiv(wide as int, b as int)) by {
                assert(vstd::math::abs(-(wide as int)) == vstd::math::abs(wide as int));
            }
        }
        flipped
    };
    q as i64
}

} // verus!
