//! Exact integer scaling: `floor(a * b / c)` without intermediate overflow.

use vstd::arithmetic::div_mod::{
    lemma_div_is_ordered, lemma_div_multiples_vanish, lemma_fundamental_div_mod,
    lemma_hoist_over_denominator, lemma_mod_bound,
};
use vstd::prelude::*;

verus! {

/// `a * b / c`, rounded down, over the mathematical integers.
pub open spec fn scale(a: int, b: int, c: int) -> int {
    (a * b) / c
}

/// Splitting `a` into quotient and remainder by `c` splits the scaled value
/// into two parts that each fit the machine word the inputs fit.
pub proof fn lemma_scale_split(a: int, b: int, c: int)
    requires
        0 <= a,
        0 <= b,
        0 < c,
    ensures
        scale(a, b, c) == (a / c) * b + ((a % c) * b) / c,
{
    let q = a / c;
    let r = a % c;
    lemma_fundamental_div_mod(a, c);
    assert(a * b == r * b + (q * b) * c) by (nonlinear_arith)
        requires
            a == c * q + r,
    ;
    lemma_hoist_over_denominator(r * b, q * b, c as nat);
}

/// Scaling by a fraction `b / c` of at most one never grows the value, and
/// never goes below zero.
pub proof fn lemma_scale_bounds(a: int, b: int, c: int)
    requires
        0 <= a,
        0 <= b <= c,
        0 < c,
    ensures
        0 <= scale(a, b, c) <= a,
{
    assert(0 <= a * b <= a * c) by (nonlinear_arith)
        requires
            0 <= a,
            0 <= b <= c,
    ;
    lemma_div_is_ordered(0, a * b, c);
    lemma_div_is_ordered(a * b, a * c, c);
    assert(a * c == c * a) by (nonlinear_arith);
    lemma_div_multiples_vanish(a, c);
}

/// Scaling grows with the numerator of the fraction.
pub proof fn lemma_scale_monotonic(a: int, b1: int, b2: int, c: int)
    requires
        0 <= a,
        0 <= b1 <= b2,
        0 < c,
    ensures
        scale(a, b1, c) <= scale(a, b2, c),
{
    assert(a * b1 <= a * b2) by (nonlinear_arith)
        requires
            0 <= a,
            0 <= b1 <= b2,
    ;
    lemma_div_is_ordered(a * b1, a * b2, c);
}

/// Computes `floor(a * b / c)` for a fraction `b / c` of at most one. The
/// product `a * b` may exceed 128 bits; the result never does.
pub fn mul_div_floor(a: u128, b: u64, c: u64) -> (r: u128)
    requires
        b <= c,
        c > 0,
    ensures
        r == scale(a as int, b as int, c as int),
{
    let wide_b: u128 = b as u128;
    let wide_c: u128 = c as u128;
    let q: u128 = a / wide_c;
    let rem: u128 = a % wide_c;
    proof {
        lemma_scale_split(a as int, b as int, c as int);
        lemma_scale_bounds(a as int, b as int, c as int);
        lemma_fundamental_div_mod(a as int, c as int);
        lemma_mod_bound(a as int, c as int);
        assert(q * wide_b <= a) by (nonlinear_arith)
            requires
                a == wide_c * q + rem,
                wide_b <= wide_c,
        ;
        assert(rem * wide_b <= 0xffff_ffff_ffff_ffff * 0xffff_ffff_ffff_ffff) by (nonlinear_arith)
            requires
                rem <= 0xffff_ffff_ffff_ffff,
                wide_b <= 0xffff_ffff_ffff_ffff,
        ;
        lemma_div_is_ordered(0, rem * wide_b, c as int);
    }
    let high: u128 = q * wide_b;
    let low: u128 = (rem * wide_b) / wide_c;
    high + low
}

} // verus!
