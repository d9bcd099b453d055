//! How far the curve of a motion is from its end before its last sample.
use vstd::arithmetic::div_mod::lemma_fundamental_div_mod;
use vstd::arithmetic::mul::lemma_mul_is_associative;
use vstd::arithmetic::power2::{
    lemma2_to64, lemma2_to64_rest, lemma_pow2_adds, lemma_pow2_pos, pow2,
};
use vstd::prelude::*;

use crate::arithmetic::{lemma_nearest_zero, lemma_signed_units_grow, lemma_units_grow, PLACES};
use crate::arithmetic_laws::{
    law_difference_is_within, law_sum_never_shrinks, law_zero_absorbs, law_zero_is_neutral,
    lemma_units_of_one,
};
use crate::binary64::{number, Binary64, FRACTION_SPAN, ONE, THREE};
use crate::rounding::{exponent, nearest, units, SIGNIFICAND_LIMIT};
use crate::rounding_bounds::{
    law_fraction_is_within, law_product_keeps_order, law_rounding_error_is_small,
    lemma_from_units_beside, lemma_moderate_is_within, lemma_nearest_is_bounded,
    lemma_nearest_within, lemma_negated_units, lemma_scaled_significand_is_a_number,
    lemma_units_between_powers, lemma_within_more, LARGE, LARGE_POWER,
};
use crate::uzmatch::motion::{sample_position, time_curve, LAST_SAMPLE};

verus! {

/// Two to the power 24: coefficients of the curve are bounded in steps of one over it.
pub const GRID: u64 = 0x100_0000;

/// 48.0
pub const LAST_BUT_ONE_SAMPLE: u64 = 0x4048_0000_0000_0000;

/// 8025 / 8192: a little more than 48 / 49.
pub const LATEST_POSITION: u64 = 0x3fef_5900_0000_0000;

/// 167 / 8192: a little less than 1 / 49.
pub const LEAST_REMAINDER: u64 = 0x3f94_e000_0000_0000;

/// Whether a number is finite and at most a natural number over two to a power.
spec fn below(x: Binary64, n: nat, k: nat) -> bool {
    x.is_finite() && units(x.magnitude()) * pow2(k) <= n * pow2(PLACES as nat)
}

/// A product is at most the next step of a grid above the product of what its factors are
/// at most.
proof fn lemma_product_below(
    a: Binary64,
    m: nat,
    i: nat,
    b: Binary64,
    n: nat,
    j: nat,
    q: nat,
    k: nat,
)
    requires
        below(a, m, i),
        below(b, n, j),
        k <= i + j,
        k <= PLACES,
        m * n <= q * pow2((i + j - k) as nat),
        q < SIGNIFICAND_LIMIT,
    ensures
        below(a.times(b), q, k),
{
    reveal(Binary64::spec_times);
    let p = pow2(PLACES as nat);
    let x = units(a.magnitude());
    let y = units(b.magnitude());
    let r = pow2((i + j - k) as nat);
    let w = pow2((PLACES - k) as nat);
    lemma_pow2_pos(PLACES as nat);
    lemma_pow2_pos((i + j - k) as nat);
    lemma_pow2_pos(k);
    lemma_pow2_adds(i, j);
    lemma_pow2_adds(k, (i + j - k) as nat);
    lemma_pow2_adds(k, (PLACES - k) as nat);
    lemma_products(x, pow2(i), m * p, y, pow2(j), n * p);
    assert((m * p) * (n * p) == (m * n) * (p * p)) by (nonlinear_arith);
    assert((m * n) * (p * p) <= (q * r) * (p * p)) by (nonlinear_arith)
        requires
            m * n <= q * r,
    ;
    assert((x * pow2(i)) * (y * pow2(j)) == (x * y) * (pow2(k) * r)) by (nonlinear_arith)
        requires
            pow2(i) * pow2(j) == pow2(k) * r,
    ;
    assert((x * y) * pow2(k) <= q * (p * p)) by (nonlinear_arith)
        requires
            (x * y) * (pow2(k) * r) <= (q * r) * (p * p),
            r > 0,
    ;
    assert(x * y <= (q * w) * p) by (nonlinear_arith)
        requires
            (x * y) * pow2(k) <= q * (p * p),
            p == pow2(k) * w,
            pow2(k) > 0,
    ;
    lemma_scaled_significand_is_a_number(q, (PLACES - k) as nat);
    lemma_nearest_is_bounded(x * y, p, nearest(q * w, 1) as u64);
    let z = units(a.times(b).magnitude());
    assert(z * pow2(k) <= q * p) by (nonlinear_arith)
        requires
            z <= q * w,
            p == pow2(k) * w,
    ;
}

/// Products keep the order of their factors.
proof fn lemma_products(x: nat, a: nat, m: nat, y: nat, b: nat, n: nat)
    requires
        x * a <= m,
        y * b <= n,
    ensures
        (x * a) * (y * b) <= m * n,
{
    assert((x * a) * (y * b) <= m * n) by (nonlinear_arith)
        requires
            x * a <= m,
            y * b <= n,
    ;
}

/// The first step of the grid above a number that is at most one.
pub closed spec fn step_above(x: Binary64) -> nat {
    (units(x.magnitude()) * GRID) as nat / pow2(PLACES as nat) + 1
}

/// A number is below its step, and not a whole step farther.
proof fn lemma_step_above(x: Binary64)
    requires
        x.is_finite(),
        x.magnitude() <= ONE,
    ensures
        below(x, step_above(x), 24),
        units(x.magnitude()) * GRID < step_above(x) * pow2(PLACES as nat),
        step_above(x) * pow2(PLACES as nat) <= units(x.magnitude()) * GRID + pow2(PLACES as nat),
        1 <= step_above(x) <= GRID + 1,
{
    let p = pow2(PLACES as nat);
    let n = (units(x.magnitude()) * GRID) as nat;
    lemma_pow2_pos(PLACES as nat);
    lemma2_to64();
    lemma_fundamental_div_mod(n as int, p as int);
    lemma_units_of_one();
    if x.magnitude() < ONE {
        lemma_units_grow(x.magnitude(), ONE);
    }
    let q = n / p;
    assert((q + 1) * p == p * q + p) by (nonlinear_arith);
    assert(q <= GRID) by (nonlinear_arith)
        requires
            p * q <= units(x.magnitude()) * GRID,
            units(x.magnitude()) <= p,
            p > 0,
    ;
}

/// Two to the power 48: the steps in which coefficients of the third order are bounded.
pub const CUBE_GRID: u64 = 0x1_0000_0000_0000;

/// The steps above the coefficient that is made of three factors.
spec fn cubic_step(x: nat) -> nat {
    x / (GRID as nat) + 1
}

/// A product of three factors on the grid is below its step.
proof fn lemma_cubic_below(a: Binary64, m: nat, b: Binary64, n: nat)
    requires
        below(a, m, 48),
        below(b, n, 24),
        m * n < 0x4_0000_0000_0000 * GRID,
    ensures
        below(a.times(b), cubic_step(m * n), 48),
        cubic_step(m * n) * GRID <= m * n + GRID,
        cubic_step(m * n) <= 0x4_0000_0000_0000,
{
    lemma2_to64();
    lemma_product_below(a, m, 48, b, n, 24, cubic_step(m * n), 48);
}

/// The coefficients of the curve's points are below what the steps above the position and
/// its remainder give.
proof fn lemma_coefficients(t: Binary64, s: Binary64)
    requires
        t.is_finite(),
        s.is_finite(),
        t.magnitude() <= ONE,
        s.magnitude() <= ONE,
    ensures
        ({
            let three = number(THREE);
            let x = step_above(t);
            let y = step_above(s);
            let first = cubic_step(3 * y * y * x);
            let second = cubic_step(3 * y * x * x);
            let third = cubic_step(x * x * x);
            &&& below(three.times(s).times(s).times(t), first, 48)
            &&& below(three.times(s).times(t).times(t), second, 48)
            &&& below(t.times(t).times(t), third, 48)
            &&& first * GRID <= 3 * y * y * x + GRID
            &&& second * GRID <= 3 * y * x * x + GRID
            &&& third * GRID <= x * x * x + GRID
            &&& first <= 0x4_0000_0000_0000
            &&& second <= 0x4_0000_0000_0000
            &&& third <= 0x4_0000_0000_0000
        }),
{
    let three = number(THREE);
    let x = step_above(t);
    let y = step_above(s);
    lemma_step_above(t);
    lemma_step_above(s);
    lemma2_to64();
    lemma2_to64_rest();
    lemma_pow2_adds(51, 1023);
    lemma_mul_is_associative(3, pow2(51) as int, pow2(1023) as int);
    assert(below(three, 3, 0));
    lemma_grid_powers(x, y);
    assert((3 * y) * 1 == 3 * y);
    assert((3 * y * y) * 1 == 3 * y * y);
    assert((3 * y * x) * 1 == 3 * y * x);
    assert((x * x) * 1 == x * x);
    lemma_product_below(three, 3, 0, s, y, 24, 3 * y, 24);
    lemma_product_below(three.times(s), 3 * y, 24, s, y, 24, 3 * y * y, 48);
    lemma_product_below(three.times(s), 3 * y, 24, t, x, 24, 3 * y * x, 48);
    lemma_product_below(t, x, 24, t, x, 24, x * x, 48);
    lemma_cubic_below(three.times(s).times(s), 3 * y * y, t, x);
    lemma_cubic_below(three.times(s).times(t), 3 * y * x, t, x);
    lemma_cubic_below(t.times(t), x * x, t, x);
}

/// Products of steps stay within what a significand holds.
proof fn lemma_grid_powers(x: nat, y: nat)
    requires
        x <= GRID + 1,
        y <= GRID + 1,
    ensures
        3 * y * y < SIGNIFICAND_LIMIT,
        3 * y * x < SIGNIFICAND_LIMIT,
        x * x < SIGNIFICAND_LIMIT,
        3 * y * y * x < 0x4_0000_0000_0000 * GRID,
        3 * y * x * x < 0x4_0000_0000_0000 * GRID,
        x * x * x < 0x4_0000_0000_0000 * GRID,
{
    let g: nat = 0x100_0001;
    assert(y * y <= g * g) by (nonlinear_arith)
        requires
            y <= g,
    ;
    assert(y * x <= g * g) by (nonlinear_arith)
        requires
            y <= g,
            x <= g,
    ;
    assert(x * x <= g * g) by (nonlinear_arith)
        requires
            x <= g,
    ;
    assert(3 * y * y == 3 * (y * y)) by (nonlinear_arith);
    assert(3 * y * x == 3 * (y * x)) by (nonlinear_arith);
    assert((3 * y * y) * x <= (3 * (g * g)) * g) by (nonlinear_arith)
        requires
            3 * y * y <= 3 * (g * g),
            x <= g,
    ;
    assert((3 * y * x) * x <= (3 * (g * g)) * g) by (nonlinear_arith)
        requires
            3 * y * x <= 3 * (g * g),
            x <= g,
    ;
    assert((x * x) * x <= (g * g) * g) by (nonlinear_arith)
        requires
            x * x <= g * g,
            x <= g,
    ;
}

/// A coefficient times an amount is at most the product of what they are at most, but for
/// a step.
proof fn lemma_term(a: Binary64, q: nat, x: Binary64, whole: nat)
    requires
        below(a, q, 48),
        q <= 0x4_0000_0000_0000,
        !a.is_negative(),
        !x.is_negative(),
        x.is_finite(),
        units(x.magnitude()) <= whole,
        FRACTION_SPAN <= whole,
        whole <= pow2(2080),
    ensures
        a.times(x).is_finite(),
        !a.times(x).is_negative(),
        units(a.times(x).magnitude()) * CUBE_GRID <= q * units(x.magnitude()) + whole,
{
    reveal(Binary64::spec_times);
    let p = pow2(PLACES as nat);
    let y = units(a.magnitude());
    let z = units(x.magnitude());
    let w = CUBE_GRID as nat;
    lemma_pow2_pos(PLACES as nat);
    lemma2_to64_rest();
    lemma_pow2_adds(3, PLACES as nat);
    lemma2_to64();
    assert(y <= 8 * p) by (nonlinear_arith)
        requires
            y * 0x1_0000_0000_0000 <= q * p,
            q <= 0x4_0000_0000_0000,
    ;
    lemma_pow2_adds(3, 2080);
    assert(y * z <= (8 * pow2(2080)) * p) by (nonlinear_arith)
        requires
            y <= 8 * p,
            z <= pow2(2080),
    ;
    lemma_nearest_within(y * z, p, 2083);
    law_rounding_error_is_small(y * z, p);
    let u = units(nearest(y * z, p) as u64);
    let l = SIGNIFICAND_LIMIT as int;
    assert((u * p - y * z) * l <= y * z + p * FRACTION_SPAN);
    assert((y * z) * w <= (q * z) * p) by (nonlinear_arith)
        requires
            y * w <= q * p,
    ;
    assert(u * (w * l) <= (q * z) * l + q * z + w * FRACTION_SPAN) by (nonlinear_arith)
        requires
            (u * p - y * z) * l <= y * z + p * FRACTION_SPAN,
            (y * z) * w <= (q * z) * p,
            p > 0,
            w > 0,
            l > 0,
    {
        assert((u * p) * l <= (y * z) * l + y * z + p * FRACTION_SPAN);
        assert(((u * p) * l) * w <= ((y * z) * l + y * z + p * FRACTION_SPAN) * w);
        assert(((y * z) * l + y * z) * w == ((y * z) * w) * (l + 1));
        assert(((y * z) * w) * (l + 1) <= ((q * z) * p) * (l + 1));
        assert(((u * p) * l) * w == (u * (w * l)) * p);
        assert(((q * z) * p) * (l + 1) + (p * FRACTION_SPAN) * w == ((q * z) * (l + 1) + w
            * FRACTION_SPAN) * p);
        assert((u * (w * l)) * p <= ((q * z) * (l + 1) + w * FRACTION_SPAN) * p);
    }
    assert(q * z <= 0x4_0000_0000_0000 * whole) by (nonlinear_arith)
        requires
            q <= 0x4_0000_0000_0000,
            z <= whole,
    ;
    assert(u * w <= q * z + whole) by (nonlinear_arith)
        requires
            u * (w * l) <= (q * z) * l + q * z + w * FRACTION_SPAN,
            q * z <= 0x4_0000_0000_0000 * whole,
            FRACTION_SPAN <= whole,
            w == 0x1_0000_0000_0000,
            l == 0x20_0000_0000_0000,
    ;
}

/// A sum of amounts is at most their sum, but for a step.
proof fn lemma_sum_of_terms(a: Binary64, b: Binary64, whole: nat)
    requires
        a.is_finite(),
        b.is_finite(),
        !a.is_negative(),
        !b.is_negative(),
        units(a.magnitude()) + units(b.magnitude()) <= 32 * whole,
        whole <= pow2(2080),
    ensures
        a.plus(b).is_finite(),
        !a.plus(b).is_negative(),
        units(a.plus(b).magnitude()) * CUBE_GRID <= (units(a.magnitude()) + units(b.magnitude()))
            * CUBE_GRID + whole,
{
    reveal(Binary64::spec_plus);
    let n = units(a.magnitude()) + units(b.magnitude());
    lemma2_to64();
    lemma_pow2_adds(5, 2080);
    assert(pow2(2085) * 1 == pow2(2085));
    lemma_nearest_within(n, 1, 2085);
    law_rounding_error_is_small(n, 1);
    assert(units(0) == 0) by {
        assert(0 * pow2(0) == 0);
    }
    lemma_nearest_zero(1);
}

/// The polynomial of the steps stays below the whole.
proof fn lemma_polynomial(x: nat, y: nat, first: nat, second: nat, third: nat)
    requires
        x + y <= GRID + 3,
        y >= 342016,
        first * GRID <= 3 * y * y * x + GRID,
        second * GRID <= 3 * y * x * x + GRID,
        third * GRID <= x * x * x + GRID,
    ensures
        first + second + third + 6 < CUBE_GRID,
{
    let z = x + y;
    let g: nat = 0x100_0003;
    let l: nat = 342016;
    assert(z * z * z == y * y * y + 3 * y * y * x + 3 * y * x * x + x * x * x)
        by (nonlinear_arith)
        requires
            z == x + y,
    ;
    assert(z * z * z <= g * g * g) by (nonlinear_arith)
        requires
            z <= g,
    {
        assert(z * z <= g * g);
        assert((z * z) * z <= (g * g) * g);
    }
    assert(y * y * y >= l * l * l) by (nonlinear_arith)
        requires
            y >= l,
    {
        assert(y * y >= l * l);
        assert((y * y) * y >= (l * l) * l);
    }
    assert(g * g * g - l * l * l + 9 * GRID < CUBE_GRID * GRID);
    assert((first + second + third + 6) * GRID < CUBE_GRID * GRID);
}

/// Before the last sample the position leaves room to the end.
pub proof fn lemma_position_leaves_room(index: int)
    requires
        0 <= index < 49,
    ensures
        sample_position(index).is_finite(),
        !sample_position(index).is_negative(),
        sample_position(index).at_most(number(LATEST_POSITION)),
{
    reveal(Binary64::spec_from_integer);
    reveal(Binary64::spec_over);
    let p = pow2(PLACES as nat);
    lemma_pow2_pos(PLACES as nat);
    lemma2_to64();
    lemma2_to64_rest();
    // 48 and 49 in units
    lemma_pow2_adds(47, 1027);
    lemma_pow2_adds(48, 1026);
    lemma_pow2_adds(51, 1027);
    lemma_pow2_adds(4, PLACES as nat);
    lemma_mul_is_associative(49, pow2(47) as int, pow2(1027) as int);
    lemma_mul_is_associative(3, pow2(51) as int, pow2(1027) as int);
    assert(units(LAST_SAMPLE) == 49 * p);
    assert(units(LAST_BUT_ONE_SAMPLE) == 48 * p);
    let n = Binary64::from_integer(index as u128);
    assert(index * p <= 48 * p) by (nonlinear_arith)
        requires
            index <= 48,
    ;
    assert((48 * p) * 1 == 48 * p);
    lemma_nearest_is_bounded((index * p) as nat, 1, LAST_BUT_ONE_SAMPLE);
    let u = units(n.magnitude());
    // the latest position in units
    lemma_pow2_adds(40, 1021);
    lemma_pow2_adds(13, 1061);
    lemma_mul_is_associative(8025, pow2(40) as int, pow2(1021) as int);
    assert(units(LATEST_POSITION) == 8025 * pow2(1061));
    assert(u * p <= units(LATEST_POSITION) * (49 * p)) by (nonlinear_arith)
        requires
            u <= 48 * p,
            p == 8192 * pow2(1061),
            units(LATEST_POSITION) == 8025 * pow2(1061),
    {
        assert(u <= 49 * units(LATEST_POSITION));
    }
    assert(units(0) == 0) by {
        assert(0 * pow2(0) == 0);
    }
    lemma_nearest_is_bounded(u * p, 49 * p, LATEST_POSITION);
}

/// The curve of the times stays before its end where its position leaves room.
pub proof fn lemma_time_stays_before_the_end(
    control: Binary64,
    duration: Binary64,
    position: Binary64,
)
    requires
        duration.is_finite(),
        !duration.is_negative(),
        FRACTION_SPAN <= duration.magnitude(),
        duration.at_most(number(LARGE)),
        !control.is_negative(),
        control.at_most(duration),
        position.is_finite(),
        !position.is_negative(),
        position.at_most(number(LATEST_POSITION)),
    ensures
        time_curve(control, duration).point(position).less(duration),
{
    let curve = time_curve(control, duration);
    let t = position;
    let s = number(ONE).minus(t);
    let p = pow2(PLACES as nat);
    let three = number(THREE);
    lemma2_to64();
    lemma2_to64_rest();
    lemma_pow2_pos(PLACES as nat);
    lemma_units_of_one();
    law_difference_is_within(number(ONE), t);
    law_difference_is_within(duration, control);
    lemma_remainder(t);
    lemma_coefficients(t, s);
    lemma_step_above(t);
    lemma_step_above(s);
    let x = step_above(t);
    let y = step_above(s);
    let first = cubic_step(3 * y * y * x);
    let second = cubic_step(3 * y * x * x);
    let third = cubic_step(x * x * x);
    lemma_polynomial(x, y, first, second, third);
    // the three terms
    let whole = units(duration.magnitude());
    lemma_moderate_is_within(duration);
    lemma_within_more(duration, LARGE_POWER as nat, 2080);
    lemma_units_between_powers(duration.magnitude());
    lemma_pow2_pos(exponent(duration.magnitude()));
    lemma_pow2_adds(exponent(duration.magnitude()), 52);
    assert(whole >= FRACTION_SPAN) by (nonlinear_arith)
        requires
            whole >= pow2(exponent(duration.magnitude())) * 0x10_0000_0000_0000,
            pow2(exponent(duration.magnitude())) >= 1,
            FRACTION_SPAN == 0x10_0000_0000_0000,
    ;
    let c = units(control.magnitude());
    let e = units(curve.finish_control.magnitude());
    lemma_signed_units_grow(control, duration);
    lemma_signed_units_grow(curve.finish_control, duration);
    lemma_coefficient_signs(t, s);
    lemma_term(three.times(s).times(s).times(t), first, control, whole);
    lemma_term(three.times(s).times(t).times(t), second, curve.finish_control, whole);
    lemma_term(t.times(t).times(t), third, duration, whole);
    let a = three.times(s).times(s).times(t).times(control);
    let b = three.times(s).times(t).times(t).times(curve.finish_control);
    let d = t.times(t).times(t).times(duration);
    let u = units(a.magnitude());
    let v = units(b.magnitude());
    let w = units(d.magnitude());
    assert(first * c <= first * whole) by (nonlinear_arith)
        requires
            c <= whole,
    ;
    assert(second * e <= second * whole) by (nonlinear_arith)
        requires
            e <= whole,
    ;
    assert(u * CUBE_GRID <= first * whole + whole);
    assert(v * CUBE_GRID <= second * whole + whole);
    assert(w * CUBE_GRID <= third * whole + whole);
    assert(first * whole <= 0x4_0000_0000_0000 * whole) by (nonlinear_arith)
        requires
            first <= 0x4_0000_0000_0000,
    ;
    assert(second * whole <= 0x4_0000_0000_0000 * whole) by (nonlinear_arith)
        requires
            second <= 0x4_0000_0000_0000,
    ;
    assert(third * whole <= 0x4_0000_0000_0000 * whole) by (nonlinear_arith)
        requires
            third <= 0x4_0000_0000_0000,
    ;
    // their sum
    let zero = s.times(s).times(s).times(curve.start);
    law_zero_absorbs(curve.start, s.times(s).times(s));
    law_product_keeps_order(s.times(s).times(s), s.times(s).times(s), curve.start);
    law_zero_is_neutral(zero, a);
    lemma_signed_units_grow(zero.plus(a), a);
    lemma_signed_units_grow(a, zero.plus(a));
    law_sum_never_shrinks(zero, a);
    assert(units(zero.plus(a).magnitude()) == u);
    lemma_sum_of_terms(zero.plus(a), b, whole);
    let ab = zero.plus(a).plus(b);
    lemma_sum_of_terms(ab, d, whole);
    let r = units(ab.plus(d).magnitude());
    assert(r * CUBE_GRID <= (first * whole + second * whole + third * whole) + 5 * whole);
    assert(r < whole) by (nonlinear_arith)
        requires
            r * CUBE_GRID <= (first * whole + second * whole + third * whole) + 5 * whole,
            first + second + third + 6 < CUBE_GRID,
            whole > 0,
    {
        assert(first * whole + second * whole + third * whole == (first + second + third) * whole);
        assert((first + second + third) * whole + 5 * whole <= (CUBE_GRID - 1) * whole);
        assert(r * CUBE_GRID < whole * CUBE_GRID);
    }
    lemma_signed_units_grow(duration, ab.plus(d));
}

/// The coefficients of the curve's points are amounts.
proof fn lemma_coefficient_signs(t: Binary64, s: Binary64)
    requires
        t.is_finite(),
        s.is_finite(),
        !t.is_negative(),
        !s.is_negative(),
        t.at_most(number(ONE)),
        s.at_most(number(ONE)),
    ensures
        ({
            let three = number(THREE);
            &&& s.times(s).times(s).is_finite()
            &&& !s.times(s).times(s).is_negative()
            &&& !three.times(s).times(s).times(t).is_negative()
            &&& !three.times(s).times(t).times(t).is_negative()
            &&& !t.times(t).times(t).is_negative()
        }),
{
    let three = number(THREE);
    law_fraction_is_within(s, s);
    law_fraction_is_within(s.times(s), s);
    law_fraction_is_within(three, s);
    law_fraction_is_within(three.times(s), s);
    law_fraction_is_within(three.times(s).times(s), t);
    law_fraction_is_within(three.times(s), t);
    law_fraction_is_within(three.times(s).times(t), t);
    law_fraction_is_within(t, t);
    law_fraction_is_within(t.times(t), t);
}

/// What remains of one beyond a position that leaves room is not too little, and its step
/// and that of the position are together little more than the grid.
pub proof fn lemma_remainder(t: Binary64)
    requires
        t.is_finite(),
        !t.is_negative(),
        t.at_most(number(LATEST_POSITION)),
    ensures
        ({
            let s = number(ONE).minus(t);
            &&& number(LEAST_REMAINDER).at_most(s)
            &&& step_above(s) >= 342016
            &&& step_above(t) + step_above(s) <= GRID + 3
        }),
{
    reveal(Binary64::spec_plus);
    let s = number(ONE).minus(t);
    let p = pow2(PLACES as nat);
    let h = pow2(1061);
    lemma2_to64();
    lemma2_to64_rest();
    lemma_pow2_pos(1061);
    lemma_units_of_one();
    law_difference_is_within(number(ONE), t);
    lemma_pow2_adds(40, 1021);
    lemma_pow2_adds(13, 1061);
    lemma_mul_is_associative(8025, pow2(40) as int, pow2(1021) as int);
    assert(units(LATEST_POSITION) == 8025 * h);
    lemma_pow2_adds(45, 1016);
    lemma_mul_is_associative(167, pow2(45) as int, pow2(1016) as int);
    assert(units(LEAST_REMAINDER) == 167 * h);
    lemma_signed_units_grow(t, number(LATEST_POSITION));
    lemma_negated_units(t);
    let x = units(t.magnitude());
    let y = units(s.magnitude());
    lemma_from_units_beside(p - x, false, number(LEAST_REMAINDER));
    lemma_signed_units_grow(number(LEAST_REMAINDER), s);
    law_rounding_error_is_small((p - x) as nat, 1);
    lemma_step_above(t);
    lemma_step_above(s);
    let m = step_above(t);
    let n = step_above(s);
    assert(n >= 342016) by (nonlinear_arith)
        requires
            y * GRID < n * p,
            y >= 167 * h,
            p == 8192 * h,
            h > 0,
            GRID == 0x100_0000,
    ;
    assert(m + n <= GRID + 3) by (nonlinear_arith)
        requires
            m * p <= x * GRID + p,
            n * p <= y * GRID + p,
            (y - (p - x)) * SIGNIFICAND_LIMIT <= p - x,
            p > 0,
            GRID == 0x100_0000,
            SIGNIFICAND_LIMIT == 0x20_0000_0000_0000,
    {
        assert((x + y - p) * 0x20_0000_0000_0000 <= p);
        assert((x + y - p) * 0x100_0000 <= p);
        assert((m + n) * p <= (x + y) * GRID + 2 * p);
        assert((m + n) * p <= p * GRID + 3 * p);
    }
}

} // verus!
