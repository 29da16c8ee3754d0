//! Fixed-point arithmetic for money, shares, rates and fractions.
//!
//! Money is counted in whole cents and shares in share units, of which
//! `SHARE_SCALE` make one share. Rates are basis points and fractions are
//! parts per million. Every quotient is rounded towards zero.

use vstd::prelude::*;

verus! {

/// Share units per whole share.
pub const SHARE_SCALE: i64 = 1_000_000_000_000;

/// The largest price of one share, in cents. It does not exceed `SHARE_SCALE`,
/// so one share unit is never worth more than a cent and a lot can be split
/// at any whole-cent value.
pub const MAX_PRICE: i64 = 1_000_000_000_000;

/// The largest amount of money an account may hold, in cents.
pub const MAX_MONEY: i64 = 10_000_000_000_000;

/// One whole, in parts per million.
pub const FRACTION_SCALE: i64 = 1_000_000;

/// One whole, in basis points.
pub const RATE_SCALE: i64 = 10_000;

/// `a * b / d` over the integers, rounded down.
pub open spec fn spec_mul_div(a: int, b: int, d: int) -> int {
    (a * b) / d
}

/// `a * b / d`, rounded up.
pub open spec fn spec_mul_div_ceil(a: int, b: int, d: int) -> int {
    (a * b + d - 1) / d
}

/// The product of two non-negative numbers is non-negative and grows with
/// each factor.
pub proof fn lemma_mul_bounds(a: int, b: int, x: int, y: int)
    by (nonlinear_arith)
    requires
        0 <= a <= x,
        0 <= b <= y,
    ensures
        0 <= a * b <= x * y,
{
}

/// Dividing a non-negative number by a positive one gives a quotient between
/// zero and the number, and the quotient grows with the dividend.
pub proof fn lemma_div_bounds(n: int, m: int, d: int)
    by (nonlinear_arith)
    requires
        0 <= n <= m,
        0 < d,
    ensures
        0 <= n / d <= m / d,
        n / d <= n,
        d * (n / d) <= n < d * (n / d) + d,
{
}

/// A quotient lies strictly below a bound exactly when the dividend lies
/// strictly below the bound's multiple.
pub proof fn lemma_div_lt(n: int, d: int, q: int)
    by (nonlinear_arith)
    requires
        0 <= n,
        0 < d,
    ensures
        n / d < q <==> n < q * d,
        n / d >= q <==> n >= q * d,
{
}

/// Computes `a * b / d` without intermediate overflow.
pub fn mul_div(a: i64, b: i64, d: i64) -> (r: i64)
    requires
        0 <= a,
        0 <= b,
        0 < d,
        spec_mul_div(a as int, b as int, d as int) <= i64::MAX,
    ensures
        r == spec_mul_div(a as int, b as int, d as int),
        0 <= r,
{
    proof {
        lemma_mul_bounds(a as int, b as int, i64::MAX as int, i64::MAX as int);
        lemma_div_bounds((a * b) as int, (a * b) as int, d as int);
    }
    let wide: u128 = (a as u128) * (b as u128);
    let q: u128 = wide / (d as u128);
    q as i64
}

/// Computes `a * b / d` rounded up, without intermediate overflow.
pub fn mul_div_ceil(a: i64, b: i64, d: i64) -> (r: i64)
    requires
        0 <= a,
        0 <= b,
        0 < d,
        spec_mul_div_ceil(a as int, b as int, d as int) <= i64::MAX,
    ensures
        r == spec_mul_div_ceil(a as int, b as int, d as int),
        0 <= r,
{
    proof {
        lemma_mul_bounds(a as int, b as int, i64::MAX as int, i64::MAX as int);
        lemma_div_bounds((a * b + d - 1) as int, (a * b + d - 1) as int, d as int);
    }
    let wide: u128 = (a as u128) * (b as u128) + ((d - 1) as u128);
    let q: u128 = wide / (d as u128);
    q as i64
}

} // verus!

verus! {

/// Rounding up the share count of a target value gives a count that is worth
/// exactly that value, provided that one share unit is worth at most a cent.
pub proof fn lemma_ceil_split(s: int, p: int, t: int, scale: int)
    requires
        0 < p <= scale,
        0 <= s,
        0 <= t <= spec_mul_div(s, p, scale),
    ensures
        spec_mul_div(spec_mul_div_ceil(t, scale, p), p, scale) == t,
        0 <= spec_mul_div_ceil(t, scale, p) <= s,
        t > 0 ==> spec_mul_div_ceil(t, scale, p) > 0,
        t < spec_mul_div(s, p, scale) ==> spec_mul_div_ceil(t, scale, p) < s,
{
    let n = t * scale;
    let k = (n + p - 1) / p;
    let v = (s * p) / scale;
    assert(0 <= n) by (nonlinear_arith)
        requires
            0 <= t,
            0 < scale,
            n == t * scale,
    ;
    assert(0 <= s * p) by (nonlinear_arith)
        requires
            0 <= s,
            0 < p,
    ;
    lemma_div_bounds(n + p - 1, n + p - 1, p);
    lemma_div_bounds(s * p, s * p, scale);
    // n <= k * p < n + p
    assert(p * k == k * p) by (nonlinear_arith);
    assert(n <= k * p < n + p);
    assert((t + 1) * scale == n + scale) by (nonlinear_arith)
        requires
            n == t * scale,
    ;
    assert(0 <= k) by (nonlinear_arith)
        requires
            0 <= n + p - 1,
            0 < p,
            k == (n + p - 1) / p,
    ;
    assert(0 <= k * p);
    lemma_div_lt(k * p, scale, t + 1);
    lemma_div_lt(k * p, scale, t);
    assert((k * p) / scale == t);
    // v * scale <= s * p
    assert(scale * v == v * scale) by (nonlinear_arith);
    assert(v * scale <= s * p);
    assert(n <= v * scale) by (nonlinear_arith)
        requires
            n == t * scale,
            t <= v,
            0 < scale,
    ;
    assert(k <= s) by (nonlinear_arith)
        requires
            k * p < n + p,
            n <= s * p,
            0 < p,
    ;
    if t > 0 {
        assert(n > 0) by (nonlinear_arith)
            requires
                n == t * scale,
                t > 0,
                scale > 0,
        ;
        assert(k > 0) by (nonlinear_arith)
            requires
                k * p >= n,
                n > 0,
                p > 0,
        ;
    }
    if t < v {
        assert(n + scale <= v * scale) by (nonlinear_arith)
            requires
                n == t * scale,
                t + 1 <= v,
                0 < scale,
        ;
        assert(k < s) by (nonlinear_arith)
            requires
                k * p < n + p,
                p <= scale,
                n + scale <= s * p,
                0 < p,
        ;
    }
}

/// A share of a non-negative whole, taken in proportion and rounded down,
/// lies between zero and the whole.
pub proof fn lemma_proportion_bounds(c: int, k: int, s: int)
    requires
        0 <= c,
        0 <= k <= s,
        0 < s,
    ensures
        0 <= spec_mul_div(c, k, s) <= c,
{
    assert(0 <= c * k <= c * s) by (nonlinear_arith)
        requires
            0 <= c,
            0 <= k <= s,
    ;
    lemma_div_bounds(c * k, c * s, s);
    assert((c * s) / s == c) by (nonlinear_arith)
        requires
            0 < s,
    ;
}

} // verus!
