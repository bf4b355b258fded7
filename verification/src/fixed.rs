//! Q16 fixed-point scale and truncated division.

use vstd::prelude::*;

verus! {

/// One world unit in fixed-point representation (Q16).
pub const FP_SCALE: i64 = 65536;

/// Division truncated toward zero, the rounding used throughout the
/// fixed-point arithmetic of this crate. Meaningful only for `b != 0`.
pub open spec fn tdiv(a: int, b: int) -> int {
    let m = vstd::math::abs(a) / vstd::math::abs(b);
    if (a < 0) != (b < 0) {
        -m
    } else {
        m as int
    }
}

/// Truncated division on fixed-point values.
pub fn tdiv_i64(a: i64, b: i64) -> (r: i64)
    requires
        b != 0,
        a > i64::MIN,
        b > i64::MIN,
    ensures
        r == tdiv(a as int, b as int),
        vstd::math::abs(r as int) <= vstd::math::abs(a as int),
{
    let an: u64 = if a >= 0 { a as u64 } else { (-a) as u64 };
    let bn: u64 = if b >= 0 { b as u64 } else { (-b) as u64 };
    let m: u64 = an / bn;
    proof {
        assert(an == vstd::math::abs(a as int));
        assert(bn == vstd::math::abs(b as int));
        vstd::arithmetic::div_mod::lemma_div_nonincreasing(an as int, bn as int);
        vstd::arithmetic::div_mod::lemma_div_pos_is_pos(an as int, bn as int);
    }
    if (a < 0) != (b < 0) {
        -(m as i64)
    } else {
        m as i64
    }
}

/// A product of bounded factors is bounded by the product of the bounds.
pub proof fn lemma_mul_bound(a: int, b: int, ca: int, cb: int)
    requires
        -ca <= a <= ca,
        -cb <= b <= cb,
        ca >= 0,
        cb >= 0,
    ensures
        -(ca * cb) <= a * b <= ca * cb,
{
    assert(-(ca * cb) <= a * b <= ca * cb) by (nonlinear_arith)
        requires
            -ca <= a <= ca,
            -cb <= b <= cb,
            ca >= 0,
            cb >= 0,
    ;
}

/// The magnitude of a truncated quotient is bounded by any multiple of the
/// divisor that bounds the dividend.
pub proof fn lemma_tdiv_le(a: int, b: int, c: int)
    requires
        b != 0,
        c >= 0,
        vstd::math::abs(a) <= c * vstd::math::abs(b),
    ensures
        -c <= tdiv(a, b) <= c,
{
    let an = vstd::math::abs(a) as int;
    let bn = vstd::math::abs(b) as int;
    vstd::arithmetic::div_mod::lemma_div_is_ordered(an, c * bn, bn);
    vstd::arithmetic::div_mod::lemma_div_multiples_vanish(c, bn);
    vstd::arithmetic::div_mod::lemma_div_pos_is_pos(an, bn);
}

/// A slope quotient `(x * s) / y` is bounded by the scale `s` whenever the
/// numerator factor is no larger in magnitude than the divisor.
pub proof fn lemma_tdiv_ratio_le(x: int, y: int, s: int)
    requires
        y != 0,
        s > 0,
        vstd::math::abs(x) <= vstd::math::abs(y),
    ensures
        -s <= tdiv(x * s, y) <= s,
{
    let ax = vstd::math::abs(x) as int;
    let ay = vstd::math::abs(y) as int;
    if x >= 0 {
        vstd::arithmetic::mul::lemma_mul_nonnegative(x, s);
        assert(vstd::math::abs(x * s) == ax * s);
    } else {
        assert((-x) * s == -(x * s)) by (nonlinear_arith);
        vstd::arithmetic::mul::lemma_mul_nonnegative(-x, s);
        assert(vstd::math::abs(x * s) == ax * s);
    }
    vstd::arithmetic::mul::lemma_mul_inequality(ax, ay, s);
    assert(ax * s <= s * ay) by (nonlinear_arith)
        requires ax * s <= ay * s,
    ;
    lemma_tdiv_le(x * s, y, s);
}

} // verus!
