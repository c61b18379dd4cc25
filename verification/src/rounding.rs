//! Rounding a rational number to the nearest integer, ties away from zero.

use vstd::prelude::*;
use vstd::arithmetic::div_mod::{lemma_fundamental_div_mod, lemma_mod_bound};

verus! {

/// The absolute value of an integer.
pub open spec fn magnitude(n: int) -> int {
    if n < 0 {
        -n
    } else {
        n
    }
}

/// The magnitude of `n / d` rounded to the nearest integer, a half rounded up.
pub open spec fn rounded_magnitude(n: int, d: int) -> int {
    let q = magnitude(n) / d;
    let r = magnitude(n) % d;
    if 2 * r >= d {
        q + 1
    } else {
        q
    }
}

/// The integer nearest to `n / d`, for a positive `d`; of the two integers at
/// the same distance the one further from zero.
pub open spec fn round_half_away(n: int, d: int) -> int {
    if n < 0 {
        -rounded_magnitude(n, d)
    } else {
        rounded_magnitude(n, d)
    }
}

/// Quotient and remainder of a division by a positive number.
pub proof fn lemma_quotient_remainder(a: int, d: int)
    requires
        0 < d,
    ensures
        a == (a / d) * d + a % d,
        0 <= a % d < d,
{
    lemma_fundamental_div_mod(a, d);
    lemma_mod_bound(a, d);
    assert(d * (a / d) == (a / d) * d) by (nonlinear_arith);
}

/// The rounded magnitude lies between any two integers that `|n| / d` lies between.
pub proof fn lemma_rounded_magnitude_between(n: int, d: int, lo: int, hi: int)
    requires
        0 < d,
        lo * d <= magnitude(n) <= hi * d,
    ensures
        0 <= rounded_magnitude(n, d),
        lo <= rounded_magnitude(n, d) <= hi,
{
    let a = magnitude(n);
    let q = a / d;
    let r = a % d;
    lemma_quotient_remainder(a, d);
    assert(0 <= q) by (nonlinear_arith)
        requires
            0 <= a,
            a == q * d + r,
            r < d,
            0 < d,
    ;
    assert(q <= hi && (r > 0 ==> q + 1 <= hi)) by (nonlinear_arith)
        requires
            a == q * d + r,
            0 <= r,
            a <= hi * d,
            0 < d,
    ;
    assert(lo <= q) by (nonlinear_arith)
        requires
            a == q * d + r,
            r < d,
            lo * d <= a,
            0 < d,
    ;
}

/// Rounding keeps a number between any two integers that it lies between.
pub proof fn lemma_round_between(n: int, d: int, lo: int, hi: int)
    requires
        0 < d,
        lo * d <= n <= hi * d,
    ensures
        lo <= round_half_away(n, d) <= hi,
{
    if n < 0 {
        assert((-hi) * d == -(hi * d) && (-lo) * d == -(lo * d)) by (nonlinear_arith);
        lemma_rounded_magnitude_between(n, d, -hi, -lo);
    } else {
        lemma_rounded_magnitude_between(n, d, lo, hi);
    }
}

/// An integer is its own rounding: `k * d / d` rounds to `k`.
pub proof fn lemma_round_exact(k: int, d: int)
    requires
        0 < d,
    ensures
        round_half_away(k * d, d) == k,
{
    lemma_round_between(k * d, d, k, k);
}

/// The rounded value is a nearest integer: it differs from `n / d` by at most
/// a half.
pub proof fn lemma_round_is_nearest(n: int, d: int)
    requires
        0 < d,
    ensures
        2 * magnitude(n - round_half_away(n, d) * d) <= d,
{
    let a = magnitude(n);
    let q = a / d;
    let r = a % d;
    let m = rounded_magnitude(n, d);
    lemma_quotient_remainder(a, d);
    assert(a - m * d == (if 2 * r >= d {
        r - d
    } else {
        r
    })) by (nonlinear_arith)
        requires
            a == q * d + r,
            m == (if 2 * r >= d {
                q + 1
            } else {
                q
            }),
    ;
    if n < 0 {
        assert(n - (-m) * d == -(a - m * d)) by (nonlinear_arith)
            requires
                a == -n,
        ;
    }
}

/// Of two integers at the same distance from `n / d` the rounding takes the
/// one further from zero: no integer of greater magnitude is as near.
pub proof fn lemma_round_ties_away(n: int, d: int)
    requires
        0 < d,
        2 * (magnitude(n) % d) == d,
    ensures
        magnitude(round_half_away(n, d)) == magnitude(n) / d + 1,
{
    let a = magnitude(n);
    lemma_quotient_remainder(a, d);
    assert(0 * d <= a <= (a / d + 1) * d) by (nonlinear_arith)
        requires
            a == (a / d) * d + a % d,
            0 <= a % d < d,
            0 <= a,
    ;
    lemma_rounded_magnitude_between(n, d, 0, a / d + 1);
}

/// The magnitude of a 128-bit integer.
fn magnitude_of(n: i128) -> (a: u128)
    ensures
        a == magnitude(n as int),
{
    if n >= 0 {
        n as u128
    } else {
        ((-(n + 1)) as u128) + 1
    }
}

/// Rounds `n / d` to the nearest integer, ties away from zero.
pub fn round_nearest(n: i128, d: u64) -> (rounded: i128)
    requires
        d > 0,
    ensures
        rounded == round_half_away(n as int, d as int),
{
    let a: u128 = magnitude_of(n);
    let divisor: u128 = d as u128;
    let q: u128 = a / divisor;
    let r: u128 = a % divisor;
    proof {
        lemma_quotient_remainder(a as int, d as int);
        assert(q <= a && (d >= 2 ==> 2 * q <= a)) by (nonlinear_arith)
            requires
                a == q * d + r,
                0 <= r,
                0 <= q,
                d >= 1,
        ;
    }
    let m: u128 = if r >= divisor - r {
        q + 1
    } else {
        q
    };
    assert(m == rounded_magnitude(n as int, d as int));
    if n >= 0 {
        m as i128
    } else if m == 0 {
        0
    } else {
        -((m - 1) as i128) - 1
    }
}

} // verus!
