//! Fixed-point scalar arithmetic.
//!
//! Every quantity in the tracer (coordinates, directions, radiance) is a
//! signed integer counting units of `1/FP_ONE`. All operations are exact
//! integer arithmetic; where a quotient is taken it truncates toward zero,
//! which the spec function [`tdiv`] captures exactly.

use vstd::prelude::*;

verus! {

use vstd::arithmetic::div_mod::lemma_div_pos_is_pos;
use vstd::arithmetic::div_mod::lemma_div_is_ordered;
use vstd::arithmetic::div_mod::lemma_div_nonincreasing;
use vstd::arithmetic::div_mod::lemma_fundamental_div_mod;

/// Number of fixed-point units per 1.0.
pub const FP_ONE: i64 = 4096;

/// Truncating (round toward zero) division for a positive divisor: the
/// semantics of Rust's `/` on signed integers.
pub open spec fn tdiv(a: int, b: int) -> int
    recommends
        b > 0,
{
    if a >= 0 {
        a / b
    } else {
        -((-a) / b)
    }
}

/// `r` is the integer square root of `n`.
pub open spec fn is_isqrt(n: int, r: int) -> bool {
    &&& 0 <= r
    &&& r * r <= n
    &&& n < (r + 1) * (r + 1)
}

/// The integer square root (floor of the real square root).
pub open spec fn isqrt(n: int) -> int
    recommends
        n >= 0,
{
    choose|r: int| is_isqrt(n, r)
}

/// The integer square root exists, so `isqrt` satisfies its defining bounds.
pub proof fn lemma_isqrt_exists(n: int)
    requires
        n >= 0,
    ensures
        is_isqrt(n, isqrt(n)),
    decreases n,
{
    if n == 0 {
        assert(is_isqrt(0, 0));
    } else {
        lemma_isqrt_exists(n - 1);
        let r = isqrt(n - 1);
        if (r + 1) * (r + 1) <= n {
            assert(n == (r + 1) * (r + 1));
            assert((r + 1 + 1) * (r + 1 + 1) > n) by (nonlinear_arith)
                requires
                    n == (r + 1) * (r + 1),
                    r >= 0,
            ;
            assert(is_isqrt(n, r + 1));
        } else {
            assert(is_isqrt(n, r));
        }
    }
}

/// Any witness of `is_isqrt` is the `isqrt`.
pub proof fn lemma_isqrt_unique(n: int, r: int)
    requires
        n >= 0,
        is_isqrt(n, r),
    ensures
        r == isqrt(n),
{
    lemma_isqrt_exists(n);
    let q = isqrt(n);
    assert(r == q) by (nonlinear_arith)
        requires
            0 <= r,
            r * r <= n,
            n < (r + 1) * (r + 1),
            0 <= q,
            q * q <= n,
            n < (q + 1) * (q + 1),
    ;
}

/// |a * b| is bounded by the product of the bounds.
pub proof fn lemma_mul_abs_bound(a: int, b: int, ba: int, bb: int)
    by (nonlinear_arith)
    requires
        -ba <= a <= ba,
        -bb <= b <= bb,
    ensures
        -(ba * bb) <= a * b <= ba * bb,
{
}

/// Multiplying both sides of an inequality by a positive factor.
pub proof fn lemma_mul_le_pos(a: int, b: int, f: int)
    by (nonlinear_arith)
    requires
        a <= b,
        f > 0,
    ensures
        f * a <= f * b,
{
}

/// Truncating division never grows magnitude.
pub proof fn lemma_tdiv_bound(a: int, b: int)
    requires
        b > 0,
    ensures
        a >= 0 ==> 0 <= tdiv(a, b) <= a,
        a < 0 ==> a <= tdiv(a, b) <= 0,
{
    if a >= 0 {
        lemma_div_pos_is_pos(a, b);
        lemma_div_nonincreasing(a, b);
    } else {
        lemma_div_pos_is_pos(-a, b);
        lemma_div_nonincreasing(-a, b);
    }
}

/// Truncating division is monotone in the (absolute) numerator.
pub proof fn lemma_tdiv_abs_mono(a: int, bound: int, b: int)
    requires
        b > 0,
        -bound <= a <= bound,
        0 <= bound,
    ensures
        -tdiv(bound, b) <= tdiv(a, b) <= tdiv(bound, b),
{
    lemma_tdiv_bound(a, b);
    lemma_tdiv_bound(bound, b);
    if a >= 0 {
        lemma_div_is_ordered(a, bound, b);
    } else {
        lemma_div_is_ordered(-a, bound, b);
    }
}

/// Truncating division is monotone in the numerator.
pub proof fn lemma_tdiv_mono(a: int, b: int, d: int)
    requires
        a <= b,
        d > 0,
    ensures
        tdiv(a, d) <= tdiv(b, d),
{
    if a >= 0 {
        lemma_div_is_ordered(a, b, d);
    } else if b < 0 {
        lemma_div_is_ordered(-b, -a, d);
    } else {
        lemma_tdiv_bound(a, d);
        lemma_tdiv_bound(b, d);
    }
}

/// Dividing an exact multiple recovers the factor.
pub proof fn lemma_tdiv_multiple(k: int, d: int)
    requires
        d > 0,
    ensures
        tdiv(k * d, d) == k,
{
    if k >= 0 {
        vstd::arithmetic::div_mod::lemma_div_multiples_vanish(k, d);
        assert(k * d == d * k) by (nonlinear_arith);
        assert(k * d >= 0) by (nonlinear_arith)
            requires
                k >= 0,
                d > 0,
        ;
    } else {
        vstd::arithmetic::div_mod::lemma_div_multiples_vanish(-k, d);
        assert(-(k * d) == d * (-k)) by (nonlinear_arith);
        assert(k * d < 0) by (nonlinear_arith)
            requires
                k < 0,
                d > 0,
        ;
    }
}

/// Ordering of exact fractions with positive denominators:
/// `n1/d1 <= n2/d2`.
pub open spec fn frle(n1: int, d1: int, n2: int, d2: int) -> bool
    recommends
        d1 > 0,
        d2 > 0,
{
    n1 * d2 <= n2 * d1
}

/// The fraction order is reflexive.
pub proof fn lemma_frle_refl(n: int, d: int)
    by (nonlinear_arith)
    requires
        d > 0,
    ensures
        frle(n, d, n, d),
{
}

/// The fraction order is transitive.
pub proof fn lemma_frle_trans(n1: int, d1: int, n2: int, d2: int, n3: int, d3: int)
    by (nonlinear_arith)
    requires
        d1 > 0,
        d2 > 0,
        d3 > 0,
        frle(n1, d1, n2, d2),
        frle(n2, d2, n3, d3),
    ensures
        frle(n1, d1, n3, d3),
{
}

/// The fraction order is total.
pub proof fn lemma_frle_total(n1: int, d1: int, n2: int, d2: int)
    by (nonlinear_arith)
    requires
        d1 > 0,
        d2 > 0,
    ensures
        frle(n1, d1, n2, d2) || frle(n2, d2, n1, d1),
{
}

/// Strict ordering of exact fractions with positive denominators:
/// `n1/d1 < n2/d2`.
pub open spec fn frlt(n1: int, d1: int, n2: int, d2: int) -> bool
    recommends
        d1 > 0,
        d2 > 0,
{
    n1 * d2 < n2 * d1
}

/// A strict bound below a bound stays strict.
pub proof fn lemma_frlt_frle_trans(n1: int, d1: int, n2: int, d2: int, n3: int, d3: int)
    by (nonlinear_arith)
    requires
        d1 > 0,
        d2 > 0,
        d3 > 0,
        frlt(n1, d1, n2, d2),
        frle(n2, d2, n3, d3),
    ensures
        frlt(n1, d1, n3, d3),
{
}

/// Not strictly below means at least.
pub proof fn lemma_frlt_total(n1: int, d1: int, n2: int, d2: int)
    by (nonlinear_arith)
    requires
        d1 > 0,
        d2 > 0,
    ensures
        !frlt(n1, d1, n2, d2) <==> frle(n2, d2, n1, d1),
{
}

/// Exact comparison `n1/d1 < n2/d2` of `i64` fractions.
pub fn frac_lt(n1: i64, d1: i64, n2: i64, d2: i64) -> (r: bool)
    requires
        d1 > 0,
        d2 > 0,
    ensures
        r == frlt(n1 as int, d1 as int, n2 as int, d2 as int),
{
    let a = mul_wide(n1, d2);
    let b = mul_wide(n2, d1);
    a < b
}

/// Exact comparison `n1/d1 <= n2/d2` of `i64` fractions.
pub fn frac_le(n1: i64, d1: i64, n2: i64, d2: i64) -> (r: bool)
    requires
        d1 > 0,
        d2 > 0,
    ensures
        r == frle(n1 as int, d1 as int, n2 as int, d2 as int),
{
    let a = mul_wide(n1, d2);
    let b = mul_wide(n2, d1);
    a <= b
}

/// Truncating division of `i64` values by a positive divisor.
pub fn div64(a: i64, b: i64) -> (r: i64)
    requires
        b > 0,
    ensures
        r == tdiv(a as int, b as int),
{
    proof {
        lemma_tdiv_bound(a as int, b as int);
    }
    let q = a.checked_div(b);
    match q {
        Some(v) => v,
        None => {
            proof {
                assert(false);
            }
            0
        },
    }
}

/// Truncating division of `i128` values by a positive divisor.
pub fn div128(a: i128, b: i128) -> (r: i128)
    requires
        b > 0,
    ensures
        r == tdiv(a as int, b as int),
{
    proof {
        lemma_tdiv_bound(a as int, b as int);
    }
    let q = a.checked_div(b);
    match q {
        Some(v) => v,
        None => {
            proof {
                assert(false);
            }
            0
        },
    }
}

/// Exact product of two `i64` values, widened to `i128`.
pub fn mul_wide(a: i64, b: i64) -> (r: i128)
    ensures
        r == a * b,
{
    proof {
        lemma_mul_abs_bound(a as int, b as int, 0x8000_0000_0000_0000, 0x8000_0000_0000_0000);
    }
    (a as i128) * (b as i128)
}

/// Fixed-point product: `a * b / FP_ONE`, truncated toward zero.
pub fn mul_fp(a: i64, b: i64) -> (r: i64)
    requires
        -0x4000_0000_0000_0000 <= a * b <= 0x4000_0000_0000_0000,
    ensures
        r == tdiv(a * b, FP_ONE as int),
{
    let w = mul_wide(a, b);
    proof {
        lemma_tdiv_bound(w as int, FP_ONE as int);
    }
    let q = div128(w, FP_ONE as i128);
    q as i64
}

/// Integer square root of a `u128` below `2^126`.
pub fn isqrt_u128(n: u128) -> (r: u64)
    requires
        n < 0x4000_0000_0000_0000_0000_0000_0000_0000u128,
    ensures
        r == isqrt(n as int),
        is_isqrt(n as int, r as int),
{
    let mut lo: u64 = 0;
    let mut hi: u64 = 0x8000_0000_0000_0000u64;
    proof {
        assert(0x8000_0000_0000_0000int * 0x8000_0000_0000_0000int
            == 0x4000_0000_0000_0000_0000_0000_0000_0000int);
    }
    while lo + 1 < hi
        invariant
            lo < hi,
            hi <= 0x8000_0000_0000_0000u64,
            (lo as int) * (lo as int) <= n as int,
            (n as int) < (hi as int) * (hi as int),
        decreases hi - lo,
    {
        let mid: u64 = lo + (hi - lo) / 2;
        proof {
            lemma_mul_abs_bound(
                mid as int,
                mid as int,
                0x8000_0000_0000_0000,
                0x8000_0000_0000_0000,
            );
        }
        let sq: u128 = (mid as u128) * (mid as u128);
        if sq <= n {
            lo = mid;
        } else {
            hi = mid;
        }
    }
    proof {
        assert(is_isqrt(n as int, lo as int));
        lemma_isqrt_unique(n as int, lo as int);
    }
    lo
}

} // verus!
