//! Exact fixed-point arithmetic on the unit scale.
//!
//! Every quantity of the engine (a probability, a capacity, an expected
//! count) is an `i64` number of `1 / SCALE` units.  Products are reduced
//! back to the scale by a flooring division, so all executable results are
//! pinned exactly by the spec function [`mul_down`].

use vstd::arithmetic::div_mod::{
    lemma_div_is_ordered, lemma_div_multiples_vanish, lemma_fundamental_div_mod,
    lemma_fundamental_div_mod_converse_div,
};
use vstd::arithmetic::mul::{lemma_mul_inequality, lemma_mul_is_commutative};
use vstd::prelude::*;

verus! {

/// Number of fixed-point units in 1.0.
pub const SCALE: i64 = 1_000_000_000;

/// Largest magnitude accepted by [`fxmul`]; chosen so that the product of two
/// operands divided by `SCALE` always fits in an `i64`.
pub const FXBOUND: i64 = 90_000 * SCALE;

/// The fixed-point product: multiply and scale back down, rounding toward
/// minus infinity (`/` on `int` is Euclidean division).
pub open spec fn mul_down(a: int, b: int) -> int {
    (a * b) / (SCALE as int)
}

/// `x` forced into the interval `[lo, hi]`.
pub open spec fn spec_clamp(x: int, lo: int, hi: int) -> int {
    if x < lo {
        lo
    } else if x > hi {
        hi
    } else {
        x
    }
}

/// Clamping a second time with the same bounds changes nothing.
pub proof fn lemma_clamp_idempotent(x: int, lo: int, hi: int)
    requires
        lo <= hi,
    ensures
        spec_clamp(spec_clamp(x, lo, hi), lo, hi) == spec_clamp(x, lo, hi),
{
}

pub fn clamp(x: i64, lo: i64, hi: i64) -> (r: i64)
    ensures
        r == spec_clamp(x as int, lo as int, hi as int),
{
    if x < lo {
        lo
    } else if x > hi {
        hi
    } else {
        x
    }
}

/// The Euclidean quotient of `-m` by `SCALE`, written through the quotient
/// and remainder of `m` itself.
proof fn lemma_div_neg(m: int)
    requires
        0 <= m,
    ensures
        m % (SCALE as int) == 0 ==> (-m) / (SCALE as int) == -(m / (SCALE as int)),
        m % (SCALE as int) != 0 ==> (-m) / (SCALE as int) == -(m / (SCALE as int)) - 1,
{
    let s = SCALE as int;
    let q = m / s;
    let r = m % s;
    lemma_fundamental_div_mod(m, s);
    assert(m == s * q + r);
    if r == 0 {
        assert(-m == (-q) * s + 0) by {
            lemma_mul_is_commutative(s, q);
        }
        lemma_fundamental_div_mod_converse_div(-m, s, -q, 0);
    } else {
        assert(-m == (-q - 1) * s + (s - r)) by {
            lemma_mul_is_commutative(s, q);
        }
        lemma_fundamental_div_mod_converse_div(-m, s, -q - 1, s - r);
    }
}

/// A magnitude bound on the scaled product from magnitude bounds on the
/// factors.
pub proof fn lemma_mul_down_abs(a: int, b: int, ba: int, bb: int)
    requires
        -ba <= a <= ba,
        -bb <= b <= bb,
        0 <= ba,
        0 <= bb,
    ensures
        -((ba * bb) / (SCALE as int)) - 1 <= mul_down(a, b) <= (ba * bb) / (SCALE as int),
{
    let s = SCALE as int;
    let m = ba * bb;
    assert(-m <= a * b <= m) by (nonlinear_arith)
        requires
            -ba <= a <= ba,
            -bb <= b <= bb,
            0 <= ba,
            0 <= bb,
            m == ba * bb,
    ;
    lemma_div_is_ordered(a * b, m, s);
    lemma_div_is_ordered(-m, a * b, s);
    lemma_div_neg(m);
}

/// For a non-negative value and a factor in `[0, 1]`, the scaled product
/// stays between `0` and the value.
pub proof fn lemma_mul_down_in_unit(a: int, b: int)
    requires
        0 <= a,
        0 <= b <= SCALE,
    ensures
        0 <= mul_down(a, b) <= a,
{
    let s = SCALE as int;
    assert(0 <= a * b) by (nonlinear_arith)
        requires
            0 <= a,
            0 <= b,
    ;
    lemma_div_is_ordered(0, a * b, s);
    lemma_mul_inequality(b, s, a);
    lemma_mul_is_commutative(a, b);
    lemma_mul_is_commutative(a, s);
    lemma_div_is_ordered(a * b, a * s, s);
    lemma_div_multiples_vanish(a, s);
}

/// The scaled product grows with its left factor when the right factor is
/// non-negative.
pub proof fn lemma_mul_down_monotone_left(a1: int, a2: int, b: int)
    requires
        a1 <= a2,
        0 <= b,
    ensures
        mul_down(a1, b) <= mul_down(a2, b),
{
    lemma_mul_inequality(a1, a2, b);
    lemma_div_is_ordered(a1 * b, a2 * b, SCALE as int);
}

/// The scaled product grows with its right factor when the left factor is
/// non-negative.
pub proof fn lemma_mul_down_monotone_right(a: int, b1: int, b2: int)
    requires
        0 <= a,
        b1 <= b2,
    ensures
        mul_down(a, b1) <= mul_down(a, b2),
{
    lemma_mul_inequality(b1, b2, a);
    lemma_mul_is_commutative(a, b1);
    lemma_mul_is_commutative(a, b2);
    lemma_div_is_ordered(a * b1, a * b2, SCALE as int);
}

/// The Euclidean quotient of `n` by `SCALE`, for either sign of `n`.
pub fn div_scale(n: i128) -> (r: i64)
    requires
        -9_000_000_000_000_000_000_000_000_000 <= n <= 9_000_000_000_000_000_000_000_000_000,
    ensures
        r == (n as int) / (SCALE as int),
{
    let s = SCALE as u128;
    if n >= 0 {
        let q: u128 = (n as u128) / s;
        proof {
            lemma_div_is_ordered(n as int, 9_000_000_000_000_000_000_000_000_000, SCALE as int);
            assert(9_000_000_000_000_000_000_000_000_000int / 1_000_000_000int
                == 9_000_000_000_000_000_000int);
        }
        q as i64
    } else {
        let m: u128 = (-n) as u128;
        let q: u128 = (m + (s - 1)) / s;
        proof {
            let si = SCALE as int;
            let mi = m as int;
            lemma_fundamental_div_mod(mi, si);
            let q0 = mi / si;
            let r0 = mi % si;
            lemma_div_is_ordered(mi + (si - 1), 9_000_000_000_000_000_001_000_000_000, si);
            assert(9_000_000_000_000_000_001_000_000_000int / 1_000_000_000int
                == 9_000_000_000_000_000_001int);
            if r0 == 0 {
                assert(mi + (si - 1) == q0 * si + (si - 1)) by {
                    lemma_mul_is_commutative(si, q0);
                }
                lemma_fundamental_div_mod_converse_div(mi + (si - 1), si, q0, si - 1);
                lemma_div_neg(mi);
            } else {
                assert(mi + (si - 1) == (q0 + 1) * si + (r0 - 1)) by {
                    lemma_mul_is_commutative(si, q0);
                }
                lemma_fundamental_div_mod_converse_div(mi + (si - 1), si, q0 + 1, r0 - 1);
                lemma_div_neg(mi);
            }
        }
        -(q as i64)
    }
}

/// Fixed-point multiplication, exactly the Euclidean quotient
/// `a * b / SCALE`.
pub fn fxmul(a: i64, b: i64) -> (r: i64)
    requires
        -FXBOUND <= a <= FXBOUND,
        -FXBOUND <= b <= FXBOUND,
    ensures
        r == mul_down(a as int, b as int),
        0 <= a && 0 <= b && b <= SCALE ==> 0 <= r <= a,
{
    proof {
        assert(-8_100_000_000_000_000_000_000_000_000 <= (a as int) * (b as int)
            <= 8_100_000_000_000_000_000_000_000_000) by (nonlinear_arith)
            requires
                -90_000_000_000_000 <= a <= 90_000_000_000_000,
                -90_000_000_000_000 <= b <= 90_000_000_000_000,
        ;
        if 0 <= a && 0 <= b && b <= SCALE {
            lemma_mul_down_in_unit(a as int, b as int);
        }
    }
    let p: i128 = (a as i128) * (b as i128);
    div_scale(p)
}

/// The spec-side halving chain: `0.5` to the power `x`, on the scale, each
/// halving rounding down.
pub open spec fn spec_powhalf(x: nat) -> int
    decreases x,
{
    if x == 0 {
        SCALE as int
    } else {
        spec_powhalf((x - 1) as nat) / 2
    }
}

/// The halving chain always stays a probability on the scale.
pub proof fn lemma_powhalf_bounds(x: nat)
    ensures
        0 <= spec_powhalf(x) <= SCALE,
    decreases x,
{
    if x > 0 {
        lemma_powhalf_bounds((x - 1) as nat);
    }
}

/// `0.5` to the power `x` in fixed point.
pub fn powhalf(x: usize) -> (r: i64)
    ensures
        r == spec_powhalf(x as nat),
        0 <= r <= SCALE,
    decreases x,
{
    if x > 0 {
        let prev = powhalf(x - 1);
        ((prev as u64) / 2) as i64
    } else {
        SCALE
    }
}

} // verus!
