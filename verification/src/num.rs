//! Shared integer helpers: absolute value, rounded division, and the
//! division lemmas the rasterizer proofs lean on.

use vstd::prelude::*;

verus! {

/// Absolute value over the mathematical integers.
pub open spec fn abs_i(v: int) -> int {
    if v < 0 {
        -v
    } else {
        v
    }
}

/// The integer nearest to `num / den` for a positive denominator,
/// with exact halves rounded up.
pub open spec fn nearest_div(num: int, den: int) -> int {
    (2 * num + den) / (2 * den)
}

/// `nearest_div` is characterized by a two-sided bound: `q` is the
/// rounded quotient of `num / den` exactly when `den * q` lies within
/// half a denominator of `num` (upper side inclusive).
pub proof fn lemma_nearest_div_unique(num: int, den: int, q: int)
    requires
        den > 0,
        -den < 2 * (den * q - num) <= den,
    ensures
        q == nearest_div(num, den),
{
    let x = 2 * num + den;
    let d = 2 * den;
    let r = x - q * d;
    assert(0 <= r < d) by (nonlinear_arith)
        requires
            den > 0,
            -den < 2 * (den * q - num) <= den,
            x == 2 * num + den,
            d == 2 * den,
            r == x - q * d,
    ;
    vstd::arithmetic::div_mod::lemma_fundamental_div_mod_converse(x, d, q, r);
}

/// The rounded quotient satisfies the same two-sided bound that
/// characterizes it.
pub proof fn lemma_nearest_div_bound(num: int, den: int)
    requires
        den > 0,
    ensures
        -den < 2 * (den * nearest_div(num, den) - num) <= den,
{
    let x = 2 * num + den;
    let d = 2 * den;
    let q = x / d;
    let r = x % d;
    vstd::arithmetic::div_mod::lemma_fundamental_div_mod(x, d);
    vstd::arithmetic::div_mod::lemma_mod_bound(x, d);
    assert(2 * (den * q - num) == den - r) by (nonlinear_arith)
        requires
            d == 2 * den,
            x == 2 * num + den,
            x == d * q + r,
    ;
}

/// For a numerator between 0 and `m` denominators, the rounded
/// quotient lies between 0 and `m`.
pub proof fn lemma_nearest_div_range(num: int, den: int, m: int)
    requires
        den > 0,
        0 <= num <= m * den,
    ensures
        0 <= nearest_div(num, den) <= m,
{
    let q = nearest_div(num, den);
    lemma_nearest_div_bound(num, den);
    assert(0 <= q <= m) by (nonlinear_arith)
        requires
            den > 0,
            0 <= num <= m * den,
            -den < 2 * (den * q - num) <= den,
    ;
}

/// Rounded division of 0 is 0.
pub proof fn lemma_nearest_div_zero(den: int)
    requires
        den > 0,
    ensures
        nearest_div(0, den) == 0,
{
    lemma_nearest_div_unique(0, den, 0);
}

/// Division truncated toward zero, for a positive divisor.
pub open spec fn div_trunc(n: int, d: int) -> int {
    if n >= 0 {
        n / d
    } else {
        -((-n) / d)
    }
}

/// A quotient truncated toward zero is no larger in magnitude than
/// `m` whenever the numerator is within `m` divisors of zero.
pub proof fn lemma_div_trunc_bound(n: int, d: int, m: int)
    requires
        d > 0,
        0 <= m,
        abs_i(n) <= m * d,
    ensures
        abs_i(div_trunc(n, d)) <= m,
        0 <= n ==> 0 <= div_trunc(n, d),
        n < 0 ==> div_trunc(n, d) <= 0,
{
    vstd::arithmetic::div_mod::lemma_fundamental_div_mod_converse(m * d, d, m, 0);
    if n >= 0 {
        vstd::arithmetic::div_mod::lemma_div_is_ordered(n, m * d, d);
        vstd::arithmetic::div_mod::lemma_div_pos_is_pos(n, d);
    } else {
        vstd::arithmetic::div_mod::lemma_div_is_ordered(-n, m * d, d);
        vstd::arithmetic::div_mod::lemma_div_pos_is_pos(-n, d);
    }
}

/// Compute `div_trunc` on machine integers: division truncated toward
/// zero, the form the shape constructions use.
pub fn div_trunc_i64(n: i64, d: i64) -> (q: i64)
    requires
        d > 0,
        i64::MIN < n,
    ensures
        q as int == div_trunc(n as int, d as int),
{
    proof {
        if n >= 0 {
            vstd::arithmetic::div_mod::lemma_div_is_ordered_by_denominator(n as int, 1, d as int);
            vstd::arithmetic::div_mod::lemma_div_basics(n as int);
            vstd::arithmetic::div_mod::lemma_div_pos_is_pos(n as int, d as int);
        } else {
            vstd::arithmetic::div_mod::lemma_div_is_ordered_by_denominator(
                -(n as int),
                1,
                d as int,
            );
            vstd::arithmetic::div_mod::lemma_div_basics(-(n as int));
            vstd::arithmetic::div_mod::lemma_div_pos_is_pos(-(n as int), d as int);
        }
    }
    if n >= 0 {
        ((n as u64) / (d as u64)) as i64
    } else {
        -((((-n) as u64) / (d as u64)) as i64)
    }
}

/// Rounded division of an exact multiple returns the factor.
pub proof fn lemma_nearest_div_exact(k: int, den: int)
    requires
        den > 0,
    ensures
        nearest_div(k * den, den) == k,
{
    assert(-den < 2 * (den * k - k * den) <= den) by (nonlinear_arith)
        requires
            den > 0,
    ;
    lemma_nearest_div_unique(k * den, den, k);
}

} // verus!
