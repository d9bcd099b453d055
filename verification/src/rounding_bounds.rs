//! How far rounding moves a result, and how results keep the order and the size of what
//! they are computed from.
use vstd::arithmetic::div_mod::{lemma_fundamental_div_mod, lemma_fundamental_div_mod_converse};
use vstd::arithmetic::power2::{
    lemma2_to64, lemma2_to64_rest, lemma_pow2_adds, lemma_pow2_pos, lemma_pow2_strictly_increases,
    lemma_pow2_unfold, pow2,
};
use vstd::prelude::*;

use crate::arithmetic::{
    from_units, law_rounding_is_exact_on_numbers, lemma_nearest_exact, lemma_nearest_zero,
    lemma_signed_units_grow, lemma_units_grow, signed_units, PLACES,
};
use crate::arithmetic_laws::{
    law_difference_is_within, law_one_is_neutral, law_quotient_with_itself,
    law_rounding_keeps_order, law_sum_never_shrinks, lemma_half_even_between, lemma_nearest_grows,
    lemma_scale_bounds,
};
use crate::binary64::{number, Binary64, FRACTION_SPAN, INFINITE_MAGNITUDE, ONE, ZERO};
use crate::rounding::{exponent, half_even, lemma_scale_is, nearest, scale, significand, units, SIGNIFICAND_LIMIT};

verus! {

/// The exponent of the largest power of two that is a finite number, in units.
pub const LARGEST_POWER: u64 = 2097;

/// A significand and its scale are encoded as the number that they stand for, also where
/// the significand carries into the exponent.
proof fn lemma_units_of_encoding(k: nat, h: nat)
    requires
        h <= SIGNIFICAND_LIMIT,
        k > 0 ==> h >= FRACTION_SPAN,
        k * FRACTION_SPAN + h < INFINITE_MAGNITUDE,
    ensures
        units((k * FRACTION_SPAN + h) as u64) == h * pow2(k),
{
    let m = (k * FRACTION_SPAN + h) as u64;
    lemma2_to64();
    if h < FRACTION_SPAN {
        assert(k == 0);
    } else if h < SIGNIFICAND_LIMIT {
        lemma_fundamental_div_mod_converse(
            m as int,
            FRACTION_SPAN as int,
            (k + 1) as int,
            h - FRACTION_SPAN,
        );
    } else {
        lemma_fundamental_div_mod_converse(m as int, FRACTION_SPAN as int, (k + 2) as int, 0);
        lemma_pow2_unfold(k + 1);
        assert(FRACTION_SPAN * pow2(k + 1) == SIGNIFICAND_LIMIT * pow2(k)) by (nonlinear_arith)
            requires
                pow2(k + 1) == 2 * pow2(k),
                SIGNIFICAND_LIMIT == 2 * FRACTION_SPAN,
        ;
    }
}

/// A rounded quotient is at most a half away.
proof fn lemma_half_even_error(n: nat, d: nat)
    requires
        d > 0,
    ensures
        -(d as int) <= 2 * (half_even(n, d) * d - n) <= d,
{
    lemma_fundamental_div_mod(n as int, d as int);
    let q = n / d;
    assert((q + 1) * d == q * d + d) by (nonlinear_arith);
    assert(d * q == q * d) by (nonlinear_arith);
}

/// A rounded quotient is its scale times a significand, and at most half a scale away.
proof fn lemma_nearest_units(n: nat, d: nat)
    requires
        d > 0,
        nearest(n, d) < INFINITE_MAGNITUDE,
    ensures
        ({
            let p = pow2(scale(n, d));
            let h = half_even(n, d * p);
            &&& p > 0
            &&& units(nearest(n, d) as u64) == h * p
            &&& -(d * p) <= 2 * (h * (d * p) - n) <= d * p
        }),
{
    let k = scale(n, d);
    let p = pow2(k);
    let h = half_even(n, d * p);
    lemma2_to64();
    lemma_pow2_pos(k);
    assert(d * p > 0) by (nonlinear_arith)
        requires
            d > 0,
            p > 0,
    ;
    lemma_scale_bounds(n, d);
    lemma_half_even_between(n, d * p, 0, SIGNIFICAND_LIMIT as nat);
    if k > 0 {
        lemma_half_even_between(n, d * p, FRACTION_SPAN as nat, SIGNIFICAND_LIMIT as nat);
    }
    lemma_units_of_encoding(k, h);
    lemma_half_even_error(n, d * p);
}

/// Rounding a quotient moves it by at most its own size over two to the power 53, or by
/// half a unit. A whole number of units is moved by no more than the first.
pub proof fn law_rounding_error_is_small(n: nat, d: nat)
    requires
        d > 0,
        nearest(n, d) < INFINITE_MAGNITUDE,
    ensures
        ({
            let moved = units(nearest(n, d) as u64) * d - n;
            &&& -(n + d * FRACTION_SPAN) <= moved * SIGNIFICAND_LIMIT <= n + d * FRACTION_SPAN
            &&& d == 1 ==> -(n as int) <= moved * SIGNIFICAND_LIMIT <= n
        }),
{
    let k = scale(n, d);
    let p = pow2(k);
    let h = half_even(n, d * p);
    lemma2_to64();
    lemma_scale_bounds(n, d);
    lemma_nearest_units(n, d);
    let moved = units(nearest(n, d) as u64) * d - n;
    assert((h * p) * d == h * (d * p)) by (nonlinear_arith);
    assert(-(d * p) <= 2 * moved <= d * p);
    if k > 0 {
        assert(-(n as int) <= moved * SIGNIFICAND_LIMIT <= n) by (nonlinear_arith)
            requires
                -(d * p) <= 2 * moved <= d * p,
                n >= d * p * FRACTION_SPAN,
                SIGNIFICAND_LIMIT == 2 * FRACTION_SPAN,
        ;
        assert(d * FRACTION_SPAN >= 0);
    } else {
        assert(p == 1);
        assert(d * 1 == d);
        assert(d * p == d);
        assert(-(d * FRACTION_SPAN) <= moved * SIGNIFICAND_LIMIT <= d * FRACTION_SPAN)
            by (nonlinear_arith)
            requires
                -(d as int) <= 2 * moved <= d,
                SIGNIFICAND_LIMIT == 2 * FRACTION_SPAN,
        ;
        if d == 1 {
            assert(moved == 0);
        }
    }
}

/// A rounded quotient is not nearer to infinity than its numerator allows.
pub proof fn lemma_nearest_is_bounded(n: nat, d: nat, magnitude: u64)
    requires
        d > 0,
        magnitude < INFINITE_MAGNITUDE,
        n <= units(magnitude) * d,
    ensures
        nearest(n, d) <= magnitude,
        units(nearest(n, d) as u64) <= units(magnitude),
{
    lemma_nearest_exact(magnitude);
    assert(n * 1 == n);
    law_rounding_keeps_order(n, d, units(magnitude), 1);
    if nearest(n, d) < magnitude {
        lemma_units_grow(nearest(n, d) as u64, magnitude);
    }
}

/// A rounded quotient is not nearer to zero than its numerator allows.
pub proof fn lemma_nearest_is_at_least(n: nat, d: nat, magnitude: u64)
    requires
        d > 0,
        magnitude < INFINITE_MAGNITUDE,
        units(magnitude) * d <= n,
    ensures
        nearest(n, d) >= magnitude,
{
    lemma_nearest_exact(magnitude);
    assert(n * 1 == n);
    law_rounding_keeps_order(units(magnitude), 1, n, d);
}

/// The number nearest to units keeps their order.
pub proof fn lemma_from_units_keeps_order(s: int, t: int, s_zero: bool, t_zero: bool)
    requires
        s <= t,
    ensures
        from_units(s, s_zero).at_most(from_units(t, t_zero)),
{
    if s < 0 {
        assert(nearest((-s) as nat, 1) <= INFINITE_MAGNITUDE);
        if t < 0 {
            lemma_nearest_grows((-t) as nat, (-s) as nat, 1);
        }
    }
    if t > 0 {
        assert(nearest(t as nat, 1) <= INFINITE_MAGNITUDE);
        if s > 0 {
            lemma_nearest_grows(s as nat, t as nat, 1);
        }
    }
}

/// The number nearest to units is at most a number that they do not exceed, and at least
/// one that they reach.
pub proof fn lemma_from_units_beside(t: int, zero: bool, x: Binary64)
    requires
        x.is_finite(),
    ensures
        t <= signed_units(x) ==> from_units(t, zero).at_most(x),
        signed_units(x) <= t ==> x.at_most(from_units(t, zero)),
{
    law_rounding_is_exact_on_numbers(x);
    if t <= signed_units(x) {
        lemma_from_units_keeps_order(t, signed_units(x), zero, x.is_negative());
    }
    if signed_units(x) <= t {
        lemma_from_units_keeps_order(signed_units(x), t, x.is_negative(), zero);
    }
}

/// The units of a number with the opposite sign.
pub proof fn lemma_negated_units(x: Binary64)
    requires
        !x.is_nan(),
    ensures
        signed_units(x.negated()) == -signed_units(x),
        x.negated().magnitude() == x.magnitude(),
        x.negated().is_negative() == !x.is_negative(),
{
}

/// Sums keep the order of their terms.
pub proof fn law_sum_keeps_order(a: Binary64, b: Binary64, c: Binary64)
    requires
        a.is_finite(),
        b.is_finite(),
        c.is_finite(),
        a.at_most(b),
    ensures
        a.plus(c).at_most(b.plus(c)),
        c.plus(a).at_most(c.plus(b)),
{
    reveal(Binary64::spec_plus);
    lemma_signed_units_grow(a, b);
    let zero_a = a.is_negative() && c.is_negative();
    let zero_b = b.is_negative() && c.is_negative();
    lemma_from_units_keeps_order(
        signed_units(a) + signed_units(c),
        signed_units(b) + signed_units(c),
        zero_a,
        zero_b,
    );
}

/// Differences keep the order of what is taken from, and turn that of what is taken away.
pub proof fn law_difference_keeps_order(a: Binary64, b: Binary64, c: Binary64)
    requires
        a.is_finite(),
        b.is_finite(),
        c.is_finite(),
        a.at_most(b),
    ensures
        a.minus(c).at_most(b.minus(c)),
        c.minus(b).at_most(c.minus(a)),
{
    lemma_negated_units(c);
    law_sum_keeps_order(a, b, c.negated());
    law_sum_keeps_order(b.negated(), a.negated(), c);
}

/// Products of numbers that are not negative keep the order of their factors.
pub proof fn law_product_keeps_order(a: Binary64, b: Binary64, c: Binary64)
    requires
        a.is_finite(),
        b.is_finite(),
        c.is_finite(),
        !a.is_negative(),
        !b.is_negative(),
        !c.is_negative(),
        a.at_most(b),
    ensures
        a.times(c).at_most(b.times(c)),
        c.times(a).at_most(c.times(b)),
        !a.times(c).is_negative(),
        !c.times(a).is_negative(),
{
    reveal(Binary64::spec_times);
    lemma_signed_units_grow(a, b);
    let p = pow2(PLACES as nat);
    let x = units(a.magnitude());
    let y = units(b.magnitude());
    let z = units(c.magnitude());
    lemma_pow2_pos(PLACES as nat);
    assert(x * z <= y * z) by (nonlinear_arith)
        requires
            x <= y,
    ;
    assert(z * x == x * z && z * y == y * z) by (nonlinear_arith);
    lemma_nearest_grows(x * z, y * z, p);
    assert(nearest(y * z, p) <= INFINITE_MAGNITUDE);
}

/// Quotients of numbers that are not negative keep the order of what is divided.
pub proof fn law_quotient_keeps_order(a: Binary64, b: Binary64, c: Binary64)
    requires
        a.is_finite(),
        b.is_finite(),
        c.is_finite(),
        !a.is_negative(),
        !b.is_negative(),
        !c.is_negative(),
        !c.is_zero(),
        a.at_most(b),
    ensures
        a.over(c).at_most(b.over(c)),
        !a.over(c).is_negative(),
{
    reveal(Binary64::spec_over);
    lemma_signed_units_grow(a, b);
    let p = pow2(PLACES as nat);
    let x = units(a.magnitude());
    let y = units(b.magnitude());
    let z = units(c.magnitude());
    assert(units(0) == 0) by {
        assert(0 * pow2(0) == 0);
    }
    lemma_units_grow(0, c.magnitude());
    assert(x * p <= y * p) by (nonlinear_arith)
        requires
            x <= y,
    ;
    lemma_nearest_grows(x * p, y * p, z);
    assert(nearest(y * p, z) <= INFINITE_MAGNITUDE);
}

/// A number that is not negative times one that is at most one is at most itself.
pub proof fn law_fraction_is_within(x: Binary64, fraction: Binary64)
    requires
        x.is_finite(),
        !x.is_negative(),
        !fraction.is_negative(),
        fraction.at_most(number(ONE)),
    ensures
        x.times(fraction).is_finite(),
        !x.times(fraction).is_negative(),
        x.times(fraction).at_most(x),
{
    law_product_keeps_order(fraction, number(ONE), x);
    law_one_is_neutral(x);
}

/// A part of a number that is not negative over the whole is at most one.
pub proof fn law_part_is_a_fraction(part: Binary64, whole: Binary64)
    requires
        whole.is_finite(),
        !part.is_negative(),
        !whole.is_negative(),
        !whole.is_zero(),
        part.at_most(whole),
    ensures
        part.over(whole).is_finite(),
        !part.over(whole).is_negative(),
        part.over(whole).at_most(number(ONE)),
{
    law_quotient_keeps_order(part, whole, whole);
    law_quotient_with_itself(whole);
}

/// A sum with a number that is not negative is not below the other number, unless that
/// one is not a number or minus infinity.
pub proof fn law_sum_is_not_below(a: Binary64, b: Binary64)
    requires
        !a.is_nan(),
        !(a.is_infinite() && a.is_negative()),
        number(ZERO).at_most(b),
    ensures
        a.at_most(a.plus(b)),
{
    reveal(Binary64::spec_plus);
    if a.is_finite() && b.is_finite() {
        assert(units(0) == 0) by {
            assert(0 * pow2(0) == 0);
        }
        lemma_from_units_beside(
            signed_units(a) + signed_units(b),
            a.is_negative() && b.is_negative(),
            a,
        );
    }
}

/// Two to a power up to the largest one is a number.
pub proof fn lemma_power_is_a_number(k: nat) -> (magnitude: u64)
    requires
        k <= LARGEST_POWER,
    ensures
        magnitude < INFINITE_MAGNITUDE,
        units(magnitude) == pow2(k),
{
    lemma2_to64();
    lemma2_to64_rest();
    if k < 52 {
        lemma_pow2_strictly_increases(k, 52);
        lemma_units_of_encoding(0, pow2(k));
        assert(0 * FRACTION_SPAN == 0);
        assert(pow2(k) * 1 == pow2(k));
        pow2(k) as u64
    } else {
        let j = (k - 52) as nat;
        assert(j * FRACTION_SPAN + FRACTION_SPAN < INFINITE_MAGNITUDE) by (nonlinear_arith)
            requires
                j <= 2045,
                FRACTION_SPAN == 0x10_0000_0000_0000,
                INFINITE_MAGNITUDE == 0x7ff0_0000_0000_0000,
        ;
        lemma_units_of_encoding(j, FRACTION_SPAN as nat);
        lemma_pow2_adds(52, j);
        (j * FRACTION_SPAN + FRACTION_SPAN) as u64
    }
}

/// Whether a number is finite and its size is at most two to a power, in units.
pub open spec fn within(x: Binary64, k: nat) -> bool {
    x.is_finite() && units(x.magnitude()) <= pow2(k)
}

/// What does not exceed a power of two does not exceed it when rounded.
pub proof fn lemma_nearest_within(n: nat, d: nat, k: nat)
    requires
        d > 0,
        k <= LARGEST_POWER,
        n <= pow2(k) * d,
    ensures
        nearest(n, d) < INFINITE_MAGNITUDE,
        units(nearest(n, d) as u64) <= pow2(k),
{
    let magnitude = lemma_power_is_a_number(k);
    lemma_nearest_is_bounded(n, d, magnitude);
}

/// A sum or difference of two numbers is at most twice as large as they may be.
pub proof fn law_sum_is_bounded(a: Binary64, b: Binary64, k: nat)
    requires
        k < LARGEST_POWER,
        within(a, k),
        within(b, k),
    ensures
        within(a.plus(b), k + 1),
        within(a.minus(b), k + 1),
{
    reveal(Binary64::spec_plus);
    lemma_pow2_unfold(k + 1);
    lemma_negated_units(b);
    let x = signed_units(a) + signed_units(b);
    let y = signed_units(a) - signed_units(b);
    assert(pow2(k + 1) * 1 == pow2(k + 1));
    assert(units(0) == 0) by {
        assert(0 * pow2(0) == 0);
    }
    lemma_nearest_within((if x < 0 { -x } else { x }) as nat, 1, k + 1);
    lemma_nearest_within((if y < 0 { -y } else { y }) as nat, 1, k + 1);
}

/// The units of a finite magnitude lie between two powers of two.
pub proof fn lemma_units_between_powers(magnitude: u64)
    ensures
        units(magnitude) <= pow2(exponent(magnitude) + 53),
        magnitude >= FRACTION_SPAN ==> units(magnitude) >= pow2(exponent(magnitude) + 52),
{
    let e = exponent(magnitude);
    let p = pow2(e);
    let m = significand(magnitude);
    lemma2_to64_rest();
    lemma_pow2_adds(53, e);
    lemma_pow2_adds(52, e);
    assert(m * p <= SIGNIFICAND_LIMIT * p) by (nonlinear_arith)
        requires
            m <= SIGNIFICAND_LIMIT,
    ;
    if magnitude >= FRACTION_SPAN {
        assert(m * p >= FRACTION_SPAN * p) by (nonlinear_arith)
            requires
                m >= FRACTION_SPAN,
        ;
    }
}

/// A product is at most as large as its factors may be.
pub proof fn law_product_is_bounded(a: Binary64, b: Binary64, j: nat, k: nat)
    requires
        within(a, j),
        within(b, k),
        PLACES <= j + k <= PLACES + LARGEST_POWER,
    ensures
        within(a.times(b), (j + k - PLACES) as nat),
{
    reveal(Binary64::spec_times);
    let p = pow2(PLACES as nat);
    let x = units(a.magnitude());
    let y = units(b.magnitude());
    let room = (j + k - PLACES) as nat;
    lemma_pow2_pos(PLACES as nat);
    lemma_pow2_adds(j, k);
    lemma_pow2_adds(room, PLACES as nat);
    assert(x * y <= pow2(j) * pow2(k)) by (nonlinear_arith)
        requires
            x <= pow2(j),
            y <= pow2(k),
    ;
    lemma_nearest_within(x * y, p, room);
}

/// A quotient is at most as large as what is divided may be over the least divisor.
pub proof fn law_quotient_is_bounded(a: Binary64, b: Binary64, k: nat, m: nat)
    requires
        within(a, k),
        b.is_finite(),
        units(b.magnitude()) >= pow2(m),
        m <= k + PLACES <= m + LARGEST_POWER,
    ensures
        within(a.over(b), (k + PLACES - m) as nat),
{
    reveal(Binary64::spec_over);
    let p = pow2(PLACES as nat);
    let x = units(a.magnitude());
    let y = units(b.magnitude());
    let room = (k + PLACES - m) as nat;
    lemma_pow2_pos(m);
    lemma_pow2_adds(k, PLACES as nat);
    lemma_pow2_adds(room, m);
    assert(units(0) == 0) by {
        assert(0 * pow2(0) == 0);
    }
    assert(x * p <= pow2(k) * p) by (nonlinear_arith)
        requires
            x <= pow2(k),
    ;
    assert(pow2(room) * pow2(m) <= pow2(room) * y) by (nonlinear_arith)
        requires
            pow2(m) <= y,
    ;
    lemma_nearest_within(x * p, y, room);
}

/// An integer is at most as large as its type holds.
pub proof fn lemma_integer_is_bounded(n: u128)
    ensures
        within(Binary64::from_integer(n), PLACES as nat + 128),
        !Binary64::from_integer(n).is_negative(),
{
    reveal(Binary64::spec_from_integer);
    let p = pow2(PLACES as nat);
    lemma2_to64();
    lemma2_to64_rest();
    lemma_pow2_adds(64, 64);
    lemma_pow2_adds(PLACES as nat, 128);
    assert(pow2(128) == 0x1_0000_0000_0000_0000 * 0x1_0000_0000_0000_0000);
    assert(n * p <= pow2(128) * p) by (nonlinear_arith)
        requires
            n <= pow2(128),
    ;
    assert(p * pow2(128) == pow2(128) * p) by (nonlinear_arith);
    assert(pow2(PLACES as nat + 128) * 1 == pow2(PLACES as nat + 128));
    lemma_nearest_within((n * p) as nat, 1, PLACES as nat + 128);
}

/// Two to the power 51.
pub const ROUNDING: u64 = 0x8_0000_0000_0000;

/// Whether a number exceeds another by at most a third one over two to the power 51.
pub open spec fn at_most_but_for_rounding(a: Binary64, b: Binary64, whole: Binary64) -> bool {
    signed_units(a) * ROUNDING <= signed_units(b) * ROUNDING + signed_units(whole)
}

/// A difference, added to the number that was taken away, gives back the other number
/// but for rounding.
pub proof fn law_sum_undoes_difference(a: Binary64, b: Binary64, k: nat)
    requires
        k < LARGEST_POWER,
        within(b, k),
        !a.is_negative(),
        !b.is_negative(),
        a.at_most(b),
    ensures
        a.plus(b.minus(a)).is_finite(),
        !a.plus(b.minus(a)).is_negative(),
        at_most_but_for_rounding(a.plus(b.minus(a)), b, b),
        at_most_but_for_rounding(b, a.plus(b.minus(a)), b),
{
    reveal(Binary64::spec_plus);
    let d = b.minus(a);
    let x = units(a.magnitude());
    let y = units(b.magnitude());
    lemma_signed_units_grow(a, b);
    law_difference_is_within(b, a);
    lemma_signed_units_grow(d, b);
    law_sum_is_bounded(a, d, k);
    law_sum_never_shrinks(a, d);
    let z = units(d.magnitude());
    let w = units(a.plus(d).magnitude());
    assert(units(0) == 0) by {
        assert(0 * pow2(0) == 0);
    }
    lemma_nearest_zero(1);
    lemma_negated_units(a);
    assert(z == units(nearest((y - x) as nat, 1) as u64));
    assert(w == units(nearest(x + z, 1) as u64));
    law_rounding_error_is_small((y - x) as nat, 1);
    law_rounding_error_is_small(x + z, 1);
    let s = SIGNIFICAND_LIMIT as int;
    assert(-(y - x) <= (z - (y - x)) * s <= y - x);
    assert(-(x + z) <= (w - (x + z)) * s <= x + z);
    lemma_two_roundings(x as int, y as int, z as int, w as int);
}

/// The arithmetic behind [`law_sum_undoes_difference`].
proof fn lemma_two_roundings(x: int, y: int, z: int, w: int)
    requires
        0 <= x <= y,
        0 <= z,
        -(y - x) <= (z - (y - x)) * SIGNIFICAND_LIMIT <= y - x,
        -(x + z) <= (w - (x + z)) * SIGNIFICAND_LIMIT <= x + z,
    ensures
        w * ROUNDING <= y * ROUNDING + y,
        y * ROUNDING <= w * ROUNDING + y,
{
    let s: int = 0x20_0000_0000_0000;
    let m = x + z;
    // the first rounding moves the sum away from `y` by at most `y / s`
    assert(-y <= (m - y) * s <= y);
    assert(m <= 2 * y);
    assert(-2 * y <= (w - m) * s <= 2 * y);
    assert((w - y) * s == (w - m) * s + (m - y) * s);
    assert(-3 * y <= (w - y) * s <= 3 * y);
}

/// Two to the power 1000: logarithms and metres are far smaller.
pub const LARGE: u64 = 0x7e70_0000_0000_0000;

/// The power of two, in units, that [`LARGE`] is.
pub const LARGE_POWER: u64 = 2074;

/// Whether a number is finite and not larger than [`LARGE`], on either side of zero.
pub open spec fn moderate(x: Binary64) -> bool {
    x.is_finite() && x.absolute().at_most(number(LARGE))
}

/// A moderate number is within its power of two.
pub proof fn lemma_moderate_is_within(x: Binary64)
    requires
        moderate(x),
    ensures
        within(x, LARGE_POWER as nat),
{
    lemma2_to64_rest();
    lemma_pow2_adds(52, 2022);
    if x.magnitude() < LARGE {
        lemma_units_grow(x.magnitude(), LARGE);
    }
}

/// A number within one power of two is within a greater one.
pub proof fn lemma_within_more(x: Binary64, j: nat, k: nat)
    requires
        within(x, j),
        j <= k,
    ensures
        within(x, k),
{
    if j < k {
        lemma_pow2_strictly_increases(j, k);
    }
}

/// The difference of a number to a smaller one is above zero.
pub proof fn law_difference_is_above_zero(a: Binary64, b: Binary64)
    requires
        a.is_finite(),
        b.is_finite(),
        b.less(a),
    ensures
        number(ZERO).less(a.minus(b)),
{
    reveal(Binary64::spec_plus);
    lemma_signed_units_grow(b, a);
    lemma_negated_units(b);
    let total = signed_units(a) - signed_units(b);
    assert(units(1) == 1) by {
        lemma2_to64();
        assert(1 * pow2(0) == 1);
    }
    lemma_nearest_is_at_least(total as nat, 1, 1);
    assert(nearest(total as nat, 1) <= INFINITE_MAGNITUDE);
}

/// A significand below its limit times a power of two is a number.
pub proof fn lemma_scaled_significand_is_a_number(q: nat, e: nat)
    requires
        q < SIGNIFICAND_LIMIT,
        e + 53 <= LARGEST_POWER,
    ensures
        nearest(q * pow2(e), 1) < INFINITE_MAGNITUDE,
        units(nearest(q * pow2(e), 1) as u64) == q * pow2(e),
{
    let n = q * pow2(e);
    let k = scale(n, 1);
    let p = pow2(k);
    lemma2_to64_rest();
    lemma_pow2_pos(e);
    lemma_pow2_adds(53, e);
    assert(n <= SIGNIFICAND_LIMIT * pow2(e)) by (nonlinear_arith)
        requires
            n == q * pow2(e),
            q < SIGNIFICAND_LIMIT,
    ;
    assert(pow2(e + 53) * 1 == pow2(e + 53));
    lemma_nearest_within(n, 1, e + 53);
    lemma_scale_bounds(n, 1);
    lemma_nearest_units(n, 1);
    if k > e {
        lemma_pow2_unfold(k);
        if e + 1 < k {
            lemma_pow2_strictly_increases(e, (k - 1) as nat);
        }
        assert(false) by (nonlinear_arith)
            requires
                n == q * pow2(e),
                q < SIGNIFICAND_LIMIT,
                n >= 1 * p * FRACTION_SPAN,
                p >= 2 * pow2(e),
                pow2(e) > 0,
                SIGNIFICAND_LIMIT == 2 * FRACTION_SPAN,
        ;
    }
    let r = pow2((e - k) as nat);
    lemma_pow2_adds((e - k) as nat, k);
    let h = half_even(n, 1 * p);
    assert(1 * p == p);
    assert(n == (q * r) * p) by (nonlinear_arith)
        requires
            n == q * pow2(e),
            pow2(e) == r * p,
    ;
    assert(h == q * r) by (nonlinear_arith)
        requires
            -p <= 2 * (h * p - (q * r) * p) <= p,
            p > 0,
    ;
}

/// Whether a number is finite, not negative and at least two to a power, in units.
pub open spec fn at_least(x: Binary64, k: nat) -> bool {
    x.is_finite() && !x.is_negative() && pow2(k) <= units(x.magnitude())
}

/// What reaches a power of two reaches it when rounded.
pub proof fn lemma_nearest_at_least(n: nat, d: nat, k: nat)
    requires
        d > 0,
        k <= LARGEST_POWER,
        pow2(k) * d <= n,
        nearest(n, d) < INFINITE_MAGNITUDE,
    ensures
        units(nearest(n, d) as u64) >= pow2(k),
{
    let magnitude = lemma_power_is_a_number(k);
    lemma_nearest_is_at_least(n, d, magnitude);
    if magnitude < nearest(n, d) {
        lemma_units_grow(magnitude, nearest(n, d) as u64);
    }
}

/// A finite product is at least as large as its factors are.
pub proof fn law_product_is_at_least(a: Binary64, b: Binary64, j: nat, k: nat)
    requires
        at_least(a, j),
        at_least(b, k),
        a.times(b).is_finite(),
        PLACES <= j + k <= PLACES + LARGEST_POWER,
    ensures
        at_least(a.times(b), (j + k - PLACES) as nat),
{
    reveal(Binary64::spec_times);
    let p = pow2(PLACES as nat);
    let x = units(a.magnitude());
    let y = units(b.magnitude());
    let room = (j + k - PLACES) as nat;
    lemma_pow2_pos(PLACES as nat);
    lemma_pow2_adds(j, k);
    lemma_pow2_adds(room, PLACES as nat);
    assert(x * y >= pow2(j) * pow2(k)) by (nonlinear_arith)
        requires
            x >= pow2(j),
            y >= pow2(k),
    ;
    lemma_nearest_at_least(x * y, p, room);
}

/// A finite difference is at least as large as the exact one.
pub proof fn law_difference_is_at_least(a: Binary64, b: Binary64, k: nat)
    requires
        a.is_finite(),
        !a.is_negative(),
        !b.is_negative(),
        b.at_most(a),
        k <= LARGEST_POWER,
        units(b.magnitude()) + pow2(k) <= units(a.magnitude()),
    ensures
        at_least(a.minus(b), k),
{
    reveal(Binary64::spec_plus);
    lemma_negated_units(b);
    lemma_pow2_pos(k);
    law_difference_is_within(a, b);
    let n = (units(a.magnitude()) - units(b.magnitude())) as nat;
    assert(pow2(k) * 1 == pow2(k));
    lemma_nearest_at_least(n, 1, k);
}

/// The units of a magnitude and of the next smaller one differ by the latter's power of two.
pub proof fn lemma_units_step(magnitude: u64)
    requires
        0 < magnitude < INFINITE_MAGNITUDE,
    ensures
        units(magnitude) == units((magnitude - 1) as u64) + pow2(exponent((magnitude - 1) as u64)),
{
    let m = (magnitude - 1) as u64;
    let k = exponent(m);
    let h = significand(m);
    lemma_fundamental_div_mod(m as int, FRACTION_SPAN as int);
    assert(m == k * FRACTION_SPAN + h) by {
        assert(FRACTION_SPAN * (m as int / FRACTION_SPAN as int) == (m as int
            / FRACTION_SPAN as int) * FRACTION_SPAN);
        if m >= FRACTION_SPAN {
            assert((k + 1) * FRACTION_SPAN == k * FRACTION_SPAN + FRACTION_SPAN)
                by (nonlinear_arith);
        }
    }
    lemma_units_of_encoding(k, h);
    lemma_units_of_encoding(k, h + 1);
    assert((h + 1) * pow2(k) == h * pow2(k) + pow2(k)) by (nonlinear_arith);
}

/// A sum lies between the numbers that the exact sum lies between.
pub proof fn law_sum_is_between(a: Binary64, b: Binary64, low: Binary64, high: Binary64)
    requires
        a.is_finite(),
        b.is_finite(),
        low.is_finite(),
        high.is_finite(),
        signed_units(low) <= signed_units(a) + signed_units(b) <= signed_units(high),
    ensures
        a.plus(b).is_finite(),
        low.at_most(a.plus(b)),
        a.plus(b).at_most(high),
        signed_units(low) <= signed_units(a.plus(b)) <= signed_units(high),
{
    reveal(Binary64::spec_plus);
    let total = signed_units(a) + signed_units(b);
    let zero = a.is_negative() && b.is_negative();
    lemma_from_units_beside(total, zero, low);
    lemma_from_units_beside(total, zero, high);
    lemma_signed_units_grow(low, a.plus(b));
    lemma_signed_units_grow(a.plus(b), high);
}

/// What exceeds the largest finite number by less than half its last place is rounded to
/// it.
pub proof fn lemma_nearest_to_the_largest(n: nat)
    requires
        n <= units((INFINITE_MAGNITUDE - 1) as u64) + pow2(2043),
    ensures
        nearest(n, 1) < INFINITE_MAGNITUDE,
{
    let largest = (INFINITE_MAGNITUDE - 1) as u64;
    let d = pow2(2045);
    let top = units(largest) + pow2(2043);
    let q = (SIGNIFICAND_LIMIT - 1) as nat;
    lemma2_to64();
    lemma_pow2_pos(2043);
    lemma_pow2_adds(2, 2043);
    assert(units(largest) == q * d);
    assert(top < d * SIGNIFICAND_LIMIT && top >= d * FRACTION_SPAN) by (nonlinear_arith)
        requires
            top == q * d + pow2(2043),
            d == 4 * pow2(2043),
            pow2(2043) > 0,
            q == SIGNIFICAND_LIMIT - 1,
            SIGNIFICAND_LIMIT == 2 * FRACTION_SPAN,
            FRACTION_SPAN == 0x10_0000_0000_0000,
    ;
    assert(1 * d == d);
    lemma_scale_is(top, 1, 2045);
    lemma_fundamental_div_mod_converse(top as int, d as int, q as int, pow2(2043) as int);
    assert(half_even(top, 1 * d) == q);
    lemma_nearest_grows(n, top, 1);
}

} // verus!
