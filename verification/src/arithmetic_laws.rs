//! What holds of rounding and of arithmetic.
use vstd::arithmetic::div_mod::{lemma_div_is_ordered, lemma_fundamental_div_mod};
use vstd::arithmetic::power2::{
    lemma2_to64, lemma2_to64_rest, lemma_pow2_adds, lemma_pow2_pos, lemma_pow2_unfold, pow2,
};
use vstd::prelude::*;

use crate::arithmetic::{lemma_nearest_exact, lemma_nearest_zero, lemma_units_grow, PLACES};
use crate::binary64::{number, Binary64, FRACTION_SPAN, HALF, INFINITE_MAGNITUDE, ONE};
use crate::rounding::{
    half_even, lemma_nearest_cancels, nearest, scale, units, SIGNIFICAND_LIMIT,
};

verus! {

/// The scale brings the quotient below the limit of significands, and no further than
/// it must.
pub proof fn lemma_scale_bounds(n: nat, d: nat)
    requires
        d > 0,
    ensures
        n < d * pow2(scale(n, d)) * SIGNIFICAND_LIMIT,
        scale(n, d) > 0 ==> n >= d * pow2(scale(n, d)) * FRACTION_SPAN,
    decreases n - d,
{
    lemma2_to64();
    if n < d * SIGNIFICAND_LIMIT {
        assert(d * 1 == d);
    } else {
        let j = scale(n, 2 * d);
        lemma_scale_bounds(n, 2 * d);
        lemma_pow2_unfold(j + 1);
        assert(d * pow2(j + 1) == (2 * d) * pow2(j)) by (nonlinear_arith)
            requires
                pow2(j + 1) == 2 * pow2(j),
        ;
        if j == 0 {
            assert((2 * d) * 1 == 2 * d);
        }
    }
}

/// The scale grows with the numerator.
proof fn lemma_scale_grows(a: nat, b: nat, d: nat)
    requires
        d > 0,
        a <= b,
    ensures
        scale(a, d) <= scale(b, d),
    decreases b - d,
{
    if a >= d * SIGNIFICAND_LIMIT {
        lemma_scale_grows(a, b, 2 * d);
    }
}

/// A rounded quotient grows with the numerator.
proof fn lemma_half_even_grows(a: nat, b: nat, d: nat)
    requires
        d > 0,
        a <= b,
    ensures
        half_even(a, d) <= half_even(b, d),
{
    lemma_fundamental_div_mod(a as int, d as int);
    lemma_fundamental_div_mod(b as int, d as int);
    lemma_div_is_ordered(a as int, b as int, d as int);
}

/// A rounded quotient is not below a whole number that the quotient reaches, and not
/// above one that it does not.
pub proof fn lemma_half_even_between(n: nat, d: nat, low: nat, high: nat)
    requires
        d > 0,
        low * d <= n < high * d,
    ensures
        low <= half_even(n, d) <= high,
{
    let q = n as int / d as int;
    lemma_fundamental_div_mod(n as int, d as int);
    assert(q < high) by (nonlinear_arith)
        requires
            n == d * q + n % d,
            n < high * d,
            0 <= n % d,
            d > 0,
    ;
    assert(q >= low) by (nonlinear_arith)
        requires
            n == d * q + n % d,
            n >= low * d,
            n % d < d,
            d > 0,
    ;
}

/// Rounding keeps the order of quotients with one denominator.
pub proof fn lemma_nearest_grows(a: nat, b: nat, d: nat)
    requires
        d > 0,
        a <= b,
    ensures
        nearest(a, d) <= nearest(b, d),
{
    let j = scale(a, d);
    let k = scale(b, d);
    lemma_scale_grows(a, b, d);
    lemma_pow2_pos(j);
    lemma_pow2_pos(k);
    assert(d * pow2(j) > 0) by (nonlinear_arith)
        requires
            d > 0,
            pow2(j) > 0,
    ;
    assert(d * pow2(k) > 0) by (nonlinear_arith)
        requires
            d > 0,
            pow2(k) > 0,
    ;
    if j == k {
        lemma_half_even_grows(a, b, d * pow2(k));
    } else {
        lemma_scale_bounds(a, d);
        lemma_scale_bounds(b, d);
        lemma_half_even_between(a, d * pow2(j), 0, SIGNIFICAND_LIMIT as nat);
        lemma_half_even_between(b, d * pow2(k), FRACTION_SPAN as nat, SIGNIFICAND_LIMIT as nat);
        assert(j * FRACTION_SPAN + SIGNIFICAND_LIMIT <= k * FRACTION_SPAN + FRACTION_SPAN)
            by (nonlinear_arith)
            requires
                j + 1 <= k,
                SIGNIFICAND_LIMIT == 2 * FRACTION_SPAN,
        ;
    }
}

/// Rounding keeps the order of quotients.
pub proof fn law_rounding_keeps_order(n: nat, d: nat, m: nat, e: nat)
    requires
        d > 0,
        e > 0,
        n * e <= m * d,
    ensures
        nearest(n, d) <= nearest(m, e),
{
    lemma_nearest_cancels(n, d, e);
    lemma_nearest_cancels(m, e, d);
    assert(e * d == d * e) by (nonlinear_arith);
    assert(d * e > 0) by (nonlinear_arith)
        requires
            d > 0,
            e > 0,
    ;
    lemma_nearest_grows(n * e, m * d, d * e);
}

/// One stands for two to the power of its binary places.
pub proof fn lemma_units_of_one()
    ensures
        units(ONE) == pow2(PLACES as nat),
{
    lemma2_to64_rest();
    lemma_pow2_adds(52, 1022);
}

/// A finite number times one is itself.
pub proof fn law_one_is_neutral(x: Binary64)
    requires
        x.is_finite(),
    ensures
        x.times(number(ONE)) == x,
        number(ONE).times(x) == x,
{
    reveal(Binary64::spec_times);
    let u = units(x.magnitude());
    let p = pow2(PLACES as nat);
    lemma_units_of_one();
    lemma_pow2_pos(PLACES as nat);
    lemma_nearest_cancels(u, 1, p);
    lemma_nearest_exact(x.magnitude());
    assert(1 * p == p);
    assert(p * u == u * p) by (nonlinear_arith);
}

/// A finite number times zero is zero.
pub proof fn law_zero_absorbs(zero: Binary64, x: Binary64)
    requires
        zero.is_zero(),
        x.is_finite(),
    ensures
        zero.times(x).is_zero(),
        x.times(zero).is_zero(),
{
    reveal(Binary64::spec_times);
    lemma_pow2_pos(PLACES as nat);
    lemma_nearest_zero(pow2(PLACES as nat));
    let u = units(x.magnitude());
    assert(units(zero.magnitude()) == 0) by {
        assert(0 * pow2(0) == 0);
    }
    assert(0 * u == 0 && u * 0 == 0);
}

/// A finite number plus zero is as large as before.
pub proof fn law_zero_is_neutral(zero: Binary64, x: Binary64)
    requires
        zero.is_zero(),
        x.is_finite(),
    ensures
        zero.plus(x).equals(x),
        x.plus(zero).equals(x),
        !x.is_zero() ==> zero.plus(x) == x && x.plus(zero) == x,
{
    reveal(Binary64::spec_plus);
    assert(units(0) == 0) by {
        assert(0 * pow2(0) == 0);
    }
    lemma_nearest_exact(x.magnitude());
    if x.magnitude() > 0 {
        lemma_units_grow(0, x.magnitude());
    }
}

/// A finite number other than zero over itself is one.
pub proof fn law_quotient_with_itself(x: Binary64)
    requires
        x.is_finite(),
        !x.is_zero(),
    ensures
        x.over(x) == number(ONE),
{
    reveal(Binary64::spec_over);
    let u = units(x.magnitude());
    let p = pow2(PLACES as nat);
    assert(units(0) == 0) by {
        assert(0 * pow2(0) == 0);
    }
    lemma_units_grow(0, x.magnitude());
    lemma_units_of_one();
    lemma_nearest_cancels(p, 1, u);
    lemma_nearest_exact(ONE);
    assert(1 * u == u);
    assert(p * u == u * p) by (nonlinear_arith);
}

/// Adding a number that is not negative never gives less, though it may overflow.
pub proof fn law_sum_never_shrinks(a: Binary64, b: Binary64)
    requires
        !a.is_nan(),
        !b.is_nan(),
        !a.is_negative(),
        !b.is_negative(),
    ensures
        a.at_most(a.plus(b)),
        b.at_most(a.plus(b)),
        !a.plus(b).is_negative(),
        !a.plus(b).is_nan(),
{
    reveal(Binary64::spec_plus);
    if a.is_finite() && b.is_finite() {
        let x = units(a.magnitude());
        let y = units(b.magnitude());
        lemma_nearest_exact(a.magnitude());
        lemma_nearest_exact(b.magnitude());
        lemma_nearest_grows(x, x + y, 1);
        lemma_nearest_grows(y, x + y, 1);
        assert(units(0) == 0) by {
            assert(0 * pow2(0) == 0);
        }
        if a.magnitude() > 0 {
            lemma_units_grow(0, a.magnitude());
        }
        if b.magnitude() > 0 {
            lemma_units_grow(0, b.magnitude());
        }
        assert(nearest(x + y, 1) <= INFINITE_MAGNITUDE);
    }
}

/// Taking away no more than there is leaves a finite number between zero and what there
/// was.
pub proof fn law_difference_is_within(a: Binary64, b: Binary64)
    requires
        a.is_finite(),
        !a.is_negative(),
        !b.is_negative(),
        b.at_most(a),
    ensures
        a.minus(b).is_finite(),
        !a.minus(b).is_negative(),
        a.minus(b).at_most(a),
{
    reveal(Binary64::spec_plus);
    let x = units(a.magnitude());
    let y = units(b.magnitude());
    lemma_nearest_exact(a.magnitude());
    assert(units(0) == 0) by {
        assert(0 * pow2(0) == 0);
    }
    if b.magnitude() < a.magnitude() {
        lemma_units_grow(b.magnitude(), a.magnitude());
        lemma_nearest_grows((x - y) as nat, x, 1);
    }
}

/// Half of a finite number that is not negative is finite and not above it.
pub proof fn law_half_is_within(x: Binary64)
    requires
        x.is_finite(),
        !x.is_negative(),
    ensures
        x.times(number(HALF)).is_finite(),
        !x.times(number(HALF)).is_negative(),
        x.times(number(HALF)).at_most(x),
{
    reveal(Binary64::spec_times);
    let u = units(x.magnitude());
    let h = units(HALF);
    let p = pow2(PLACES as nat);
    lemma2_to64_rest();
    lemma_pow2_adds(52, 1021);
    lemma_pow2_unfold(PLACES as nat);
    lemma_pow2_pos(PLACES as nat);
    lemma_nearest_exact(x.magnitude());
    assert((u * h) * 1 <= u * p) by (nonlinear_arith)
        requires
            h <= p,
    ;
    law_rounding_keeps_order(u * h, p, u, 1);
}

/// Where a factor brings another above a number, the number over the first is not
/// above the second: no quotient of that kind overflows.
pub proof fn law_quotient_is_within(x: Binary64, factor: Binary64, limit: Binary64)
    requires
        x.is_finite(),
        factor.is_finite(),
        limit.is_finite(),
        !x.is_negative(),
        !factor.is_negative(),
        !limit.is_negative(),
        x.less(factor.times(limit)),
    ensures
        x.over(factor).is_finite(),
        !x.over(factor).is_negative(),
        x.over(factor).at_most(limit),
{
    reveal(Binary64::spec_times);
    reveal(Binary64::spec_over);
    let u = units(x.magnitude());
    let f = units(factor.magnitude());
    let l = units(limit.magnitude());
    let p = pow2(PLACES as nat);
    lemma_pow2_pos(PLACES as nat);
    lemma_nearest_exact(x.magnitude());
    lemma_nearest_exact(limit.magnitude());
    assert(units(0) == 0) by {
        assert(0 * pow2(0) == 0);
    }
    if (f * l) * 1 <= u * p {
        law_rounding_keeps_order(f * l, p, u, 1);
    }
    if factor.is_zero() {
        assert(0 * l == 0);
    } else {
        lemma_units_grow(0, factor.magnitude());
        assert(l * f == f * l) by (nonlinear_arith);
        assert((u * p) * 1 == u * p);
        law_rounding_keeps_order(u * p, f, l, 1);
    }
}

} // verus!
