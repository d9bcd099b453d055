//! How fast a motion is at its ends, where no zero has a sign.
use vstd::arithmetic::power2::{
    lemma2_to64, lemma2_to64_rest, lemma_pow2_adds, lemma_pow2_pos, lemma_pow2_strictly_increases,
    pow2,
};
use vstd::prelude::*;

use crate::arithmetic::{lemma_nearest_zero, lemma_signed_units_grow, lemma_units_grow, PLACES};
use crate::arithmetic_laws::{
    law_difference_is_within, law_half_is_within, law_quotient_is_within, law_zero_absorbs,
};
use crate::binary64::{number, Binary64, ONE, THREE, ZERO};
use crate::rounding::{lemma_nearest_cancels, nearest, units};
use crate::rounding_bounds::{
    at_least, law_product_is_at_least, law_product_is_bounded, law_quotient_is_bounded,
    law_rounding_error_is_small, lemma_nearest_at_least, lemma_negated_units, lemma_within_more,
    within,
};
use crate::uzmatch::motion::{
    control_time, distance_curve, motion_points, slope_speed, time_curve, PATH_CURVATURE,
    PATH_POINT_NUMBER,
};
use crate::uzmatch::motion_bounds::{
    is_unsigned, leads_unsigned, lemma_curves_run_ahead, lemma_first_sample_position,
    lemma_last_sample_position,
};
use crate::uzmatch::motion_speeds::{
    is_ordinary, lemma_controls_in_order, lemma_differences, lemma_sample_speeds,
    lemma_slope_at_the_end, lemma_slope_at_the_start, lemma_slope_is_bounded, lemma_units_of_three,
    FARTHEST, FASTEST, LONGEST_MOTION, SHORTEST,
};

verus! {

/// One in units.
pub open spec fn one() -> nat {
    pow2(PLACES as nat)
}

/// The units of a number.
pub open spec fn size(x: Binary64) -> nat {
    units(x.magnitude())
}

/// One is more than any factor of two that errors are counted in.
proof fn lemma_one_is_large()
    ensures
        one() >= 0x40_0000_0000_0000,
{
    lemma2_to64_rest();
    lemma_pow2_strictly_increases(54, PLACES as nat);
}

/// Rounding a product of up to two to the power 20 moves it by at most two to the power -32.
proof fn lemma_product_error(a: Binary64, b: Binary64)
    requires
        is_unsigned(a),
        is_unsigned(b),
        a.times(b).is_finite(),
        size(a) * size(b) <= 0x10_0000 * (one() * one()),
    ensures
        ({
            let moved = size(a.times(b)) * one() - size(a) * size(b);
            -(one() * one()) <= moved * 0x1_0000_0000 <= one() * one()
        }),
{
    reveal(Binary64::spec_times);
    let p = one();
    let n = size(a) * size(b);
    lemma_pow2_pos(PLACES as nat);
    lemma_one_is_large();
    law_rounding_error_is_small(n, p);
    let moved = size(a.times(b)) * p - n;
    let limit: int = 0x20_0000_0000_0000;
    let span: int = 0x10_0000_0000_0000;
    assert(-(n + p * span) <= moved * limit <= n + p * span);
    assert(p * span <= p * p) by (nonlinear_arith)
        requires
            span <= p,
    ;
    assert(-(p * p) <= moved * 0x1_0000_0000 <= p * p) by (nonlinear_arith)
        requires
            -(n + p * span) <= moved * limit <= n + p * span,
            n <= 0x10_0000 * (p * p),
            p * span <= p * p,
            limit == 0x20_0000_0000_0000,
    ;
}

/// Rounding a quotient of up to two to the power 17 by one of up to two to the power 10
/// moves what it undoes by at most two to the power -34.
proof fn lemma_quotient_error(a: Binary64, b: Binary64)
    requires
        is_unsigned(a),
        is_unsigned(b),
        !b.is_zero(),
        a.over(b).is_finite(),
        size(a) <= 0x2_0000 * one(),
        size(b) <= 0x400 * one(),
    ensures
        ({
            let moved = size(a.over(b)) * size(b) - size(a) * one();
            -(one() * one()) <= moved * 0x4_0000_0000 <= one() * one()
        }),
{
    reveal(Binary64::spec_over);
    let p = one();
    let n = size(a) * p;
    let d = size(b);
    lemma_pow2_pos(PLACES as nat);
    lemma_one_is_large();
    assert(units(0) == 0) by {
        assert(0 * pow2(0) == 0);
    }
    lemma_units_grow(0, b.magnitude());
    law_rounding_error_is_small(n, d);
    let moved = size(a.over(b)) * d - n;
    let limit: int = 0x20_0000_0000_0000;
    let span: int = 0x10_0000_0000_0000;
    assert(-(n + d * span) <= moved * limit <= n + d * span);
    assert(n <= 0x2_0000 * (p * p)) by (nonlinear_arith)
        requires
            n == size(a) * p,
            size(a) <= 0x2_0000 * p,
    ;
    assert(d * span <= 0x400 * (p * p)) by (nonlinear_arith)
        requires
            d <= 0x400 * p,
            span <= p,
            span >= 0,
    {
        assert(d * span <= (0x400 * p) * span);
        assert((0x400 * p) * span <= (0x400 * p) * p);
    }
    assert(-(p * p) <= moved * 0x4_0000_0000 <= p * p) by (nonlinear_arith)
        requires
            -(n + d * span) <= moved * limit <= n + d * span,
            n <= 0x2_0000 * (p * p),
            d * span <= 0x400 * (p * p),
            limit == 0x20_0000_0000_0000,
            p * p >= 0,
    ;
}

/// What is taken from a number twice comes back but for the last places of the number.
proof fn lemma_twice_taken(whole: Binary64, part: Binary64)
    requires
        is_unsigned(whole),
        is_unsigned(part),
        part.at_most(whole),
    ensures
        ({
            let back = whole.minus(whole.minus(part));
            let moved = size(back) - size(part);
            &&& is_unsigned(back)
            &&& -(size(whole) as int) <= moved * 0x10_0000_0000_0000 <= size(whole)
        }),
{
    reveal(Binary64::spec_plus);
    let rest = whole.minus(part);
    let back = whole.minus(rest);
    lemma_signed_units_grow(part, whole);
    law_difference_is_within(whole, part);
    lemma_signed_units_grow(rest, whole);
    law_difference_is_within(whole, rest);
    lemma_negated_units(part);
    lemma_negated_units(rest);
    assert(units(0) == 0) by {
        assert(0 * pow2(0) == 0);
    }
    lemma_nearest_zero(1);
    let w = size(whole);
    let m = size(part);
    let x = size(rest);
    assert(x == units(nearest((w - m) as nat, 1) as u64));
    assert(size(back) == units(nearest((w - x) as nat, 1) as u64));
    law_rounding_error_is_small((w - m) as nat, 1);
    law_rounding_error_is_small((w - x) as nat, 1);
}

/// Three times a number is that but for its last places.
proof fn lemma_tripled_error(x: Binary64)
    requires
        is_unsigned(x),
        number(THREE).times(x).is_finite(),
    ensures
        ({
            let moved = size(number(THREE).times(x)) - 3 * size(x);
            -(3 * size(x) as int) <= moved * 0x20_0000_0000_0000 <= 3 * size(x)
        }),
{
    reveal(Binary64::spec_times);
    let p = one();
    let w = size(x);
    lemma_pow2_pos(PLACES as nat);
    lemma_units_of_three();
    lemma_nearest_cancels(3 * w, 1, p);
    assert((3 * p) * w == (3 * w) * p) by (nonlinear_arith);
    assert(1 * p == p);
    law_rounding_error_is_small(3 * w, 1);
}

/// A quotient of numbers in nearly the proportion of a speed is nearly that speed.
proof fn lemma_nearly_the_speed(n: Binary64, m: Binary64, speed: Binary64)
    requires
        is_unsigned(n),
        is_unsigned(m),
        is_unsigned(speed),
        size(speed) <= 0x400 * one(),
        one() <= size(m) * 0x10_0000,
        -(one() * one()) <= (size(n) * one() - size(m) * size(speed)) * 0x1000_0000 <= one()
            * one(),
        n.over(m).is_finite(),
    ensures
        -(one() as int) <= (size(n.over(m)) - size(speed)) * 0x80 <= one(),
{
    reveal(Binary64::spec_over);
    let p = one();
    let a = size(n);
    let b = size(m);
    let v = size(speed);
    let q = size(n.over(m));
    lemma_pow2_pos(PLACES as nat);
    lemma_one_is_large();
    assert(units(0) == 0) by {
        assert(0 * pow2(0) == 0);
    }
    assert(b > 0);
    law_rounding_error_is_small(a * p, b);
    lemma_proportion_arithmetic(a as int, b as int, v as int, q as int, p as int);
}

/// The arithmetic behind [`lemma_nearly_the_speed`].
proof fn lemma_proportion_arithmetic(a: int, b: int, v: int, q: int, p: int)
    requires
        0 <= a,
        0 < b,
        0 <= v <= 0x400 * p,
        0 <= q,
        p >= 0x40_0000_0000_0000,
        p <= b * 0x10_0000,
        -(p * p) <= (a * p - b * v) * 0x1000_0000 <= p * p,
        -(a * p + b * 0x10_0000_0000_0000) <= (q * b - a * p) * 0x20_0000_0000_0000 <= a * p + b
            * 0x10_0000_0000_0000,
    ensures
        -p <= (q - v) * 0x80 <= p,
{
    let bp = b * p;
    assert(p * p <= bp * 0x10_0000) by (nonlinear_arith)
        requires
            p <= b * 0x10_0000,
            p > 0,
            bp == b * p,
    ;
    let e = a * p - b * v;
    assert(-bp <= e * 0x100 <= bp) by (nonlinear_arith)
        requires
            -(p * p) <= e * 0x1000_0000 <= p * p,
            p * p <= bp * 0x10_0000,
    ;
    assert(b * v <= 0x400 * bp) by (nonlinear_arith)
        requires
            v <= 0x400 * p,
            b > 0,
            bp == b * p,
    ;
    assert(b * 0x10_0000_0000_0000 <= bp) by (nonlinear_arith)
        requires
            p >= 0x10_0000_0000_0000,
            b > 0,
            bp == b * p,
    ;
    assert(bp > 0) by (nonlinear_arith)
        requires
            b > 0,
            p > 0,
            bp == b * p,
    ;
    let f = q * b - a * p;
    assert(a * p <= 0x401 * bp);
    assert(-(0x402 * bp) <= f * 0x20_0000_0000_0000 <= 0x402 * bp);
    assert(-bp <= f * 0x400 <= bp);
    let g = q * b - b * v;
    assert(g == f + e);
    assert(-bp <= g * 0x80 <= bp);
    assert(g == (q - v) * b) by (nonlinear_arith)
        requires
            g == q * b - b * v,
    ;
    assert(-p <= (q - v) * 0x80 <= p) by (nonlinear_arith)
        requires
            g == (q - v) * b,
            -bp <= g * 0x80 <= bp,
            bp == b * p,
            b > 0,
    ;
}

/// 1 / 1024: no motion whose speeds are told leads less far, in metres.
pub const NEAREST: u64 = 0x3f50_0000_0000_0000;

/// The limits of an ordinary motion in units.
proof fn lemma_limit_sizes()
    ensures
        units(FASTEST) == 0x400 * one(),
        units(LONGEST_MOTION) == 0x400 * one(),
        units(FARTHEST) == 0x2_0000 * one(),
        units(SHORTEST) == pow2(1064),
        units(NEAREST) == pow2(1064),
        one() == 0x400 * pow2(1064),
        one() == 0x10_0000 * pow2(1054),
{
    lemma2_to64();
    lemma2_to64_rest();
    lemma_pow2_adds(10, PLACES as nat);
    lemma_pow2_adds(17, PLACES as nat);
    lemma_pow2_adds(52, 1032);
    lemma_pow2_adds(52, 1039);
    lemma_pow2_adds(52, 1012);
    lemma_pow2_adds(10, 1064);
    lemma_pow2_adds(20, 1054);
}

/// A time that is held back where a speed would lead beyond the distance: the way that the
/// speed makes in it is the distance at most, but for rounding.
proof fn lemma_held_time(base: Binary64, speed: Binary64, distance: Binary64)
    requires
        at_least(base, 1054),
        size(base) <= 0x400 * one(),
        is_unsigned(speed),
        size(speed) <= 0x400 * one(),
        is_unsigned(distance),
        size(distance) <= 0x2_0000 * one(),
        pow2(1064) <= size(distance),
    ensures
        ({
            let held = if distance.less(speed.times(base)) {
                distance.over(speed)
            } else {
                base
            };
            &&& at_least(held, 1054)
            &&& held.at_most(base)
            &&& (size(held) * size(speed) - size(distance) * one()) * 0x1_0000_0000 <= one()
                * one()
        }),
{
    let p = one();
    let b = size(base);
    let v = size(speed);
    lemma_pow2_pos(PLACES as nat);
    lemma_limit_sizes();
    assert(v * b <= 0x10_0000 * (p * p)) by (nonlinear_arith)
        requires
            v <= 0x400 * p,
            b <= 0x400 * p,
    ;
    lemma2_to64();
    lemma_pow2_adds(10, PLACES as nat);
    law_product_is_bounded(speed, base, 1084, 1084);
    lemma_product_error(speed, base);
    let way = speed.times(base);
    assert(v * b == b * v) by (nonlinear_arith);
    if distance.less(way) {
        if speed.is_zero() {
            law_zero_absorbs(speed, base);
        }
        law_quotient_is_within(distance, speed, base);
        lemma_quotient_error(distance, speed);
        let d = size(distance);
        assert(pow2(1054) * v <= d * p) by (nonlinear_arith)
            requires
                v <= 0x400 * p,
                p == 0x10_0000 * pow2(1054),
                p == 0x400 * pow2(1064),
                pow2(1064) <= d,
        {
            assert(pow2(1064) == 0x400 * pow2(1054));
            assert(pow2(1054) * v <= pow2(1054) * (0x400 * p));
            assert(pow2(1054) * (0x400 * p) == pow2(1064) * p);
            assert(pow2(1064) * p <= d * p);
        }
        assert(units(0) == 0) by {
            assert(0 * pow2(0) == 0);
        }
        lemma_units_grow(0, speed.magnitude());
        reveal(Binary64::spec_over);
        lemma_nearest_at_least(d * p, v, 1054);
    } else {
        assert(is_unsigned(way)) by {
            reveal(Binary64::spec_times);
        }
        lemma_signed_units_grow(way, distance);
        let w = size(way);
        let d = size(distance);
        assert(w * p <= d * p) by (nonlinear_arith)
            requires
                w <= d,
        ;
    }
}

/// The way that a speed makes up to the control point is that speed times the control time,
/// but for rounding, where it is not held at the distance in earnest.
proof fn lemma_control_way(control: Binary64, speed: Binary64, distance: Binary64)
    requires
        is_unsigned(control),
        size(control) <= 0x400 * one(),
        is_unsigned(speed),
        size(speed) <= 0x400 * one(),
        is_unsigned(distance),
        (size(control) * size(speed) - size(distance) * one()) * 0x1_0000_0000 <= one() * one(),
    ensures
        ({
            let way = control.times(speed).min(distance);
            &&& is_unsigned(way)
            &&& way.at_most(distance)
            &&& -(one() * one()) <= (size(way) * one() - size(control) * size(speed))
                * 0x1_0000_0000 <= one() * one()
        }),
{
    let p = one();
    let c = size(control);
    let v = size(speed);
    assert(c * v <= 0x10_0000 * (p * p)) by (nonlinear_arith)
        requires
            v <= 0x400 * p,
            c <= 0x400 * p,
    ;
    lemma2_to64();
    lemma_pow2_adds(10, PLACES as nat);
    law_product_is_bounded(control, speed, 1084, 1084);
    lemma_product_error(control, speed);
    reveal(Binary64::spec_times);
    let full = control.times(speed);
    let way = full.min(distance);
    assert(!full.is_negative());
    lemma_signed_units_grow(distance, full);
    let w = size(way);
    let f = size(full);
    assert(w * p <= f * p) by (nonlinear_arith)
        requires
            w <= f,
    ;
}

/// The arithmetic of two slopes in nearly the proportion of a speed.
proof fn lemma_slopes_arithmetic(n: int, m: int, h: int, g: int, v: int, p: int)
    requires
        0 <= v <= 0x400 * p,
        p > 0,
        -(p * p) <= (h * p - g * v) * 0x4000_0000 <= p * p,
        -p <= (n - 3 * h) * 0x4_0000_0000 <= p,
        -p <= (m - 3 * g) * 0x200_0000_0000 <= p,
    ensures
        -(p * p) <= (n * p - m * v) * 0x1000_0000 <= p * p,
{
    let x = h * p - g * v;
    let y = (n - 3 * h) * p;
    let z = (m - 3 * g) * v;
    assert(n * p - m * v == 3 * x + y - z) by (nonlinear_arith)
        requires
            x == h * p - g * v,
            y == (n - 3 * h) * p,
            z == (m - 3 * g) * v,
    ;
    let e = n - 3 * h;
    let f = m - 3 * g;
    assert(-(p * p) <= y * 0x4_0000_0000 <= p * p) by (nonlinear_arith)
        requires
            y == e * p,
            -p <= e * 0x4_0000_0000 <= p,
            p > 0,
    ;
    assert(-(p * p) <= z * 0x8000_0000 <= p * p) by (nonlinear_arith)
        requires
            z == f * v,
            -p <= f * 0x200_0000_0000 <= p,
            0 <= v <= 0x400 * p,
            p > 0,
    {
        let w = f * 0x200_0000_0000;
        assert(-(p * v) <= w * v <= p * v);
        assert(p * v <= 0x400 * (p * p));
        assert(z * 0x200_0000_0000 == w * v);
    }
}

/// A speed from slopes that are three times a way and three times a time.
proof fn lemma_speed_of_slopes(
    in_time: Binary64,
    in_distance: Binary64,
    way: Binary64,
    time: Binary64,
    speed: Binary64,
)
    requires
        is_unsigned(way),
        is_unsigned(time),
        is_unsigned(speed),
        size(speed) <= 0x400 * one(),
        size(way) <= 0x2_0000 * one(),
        size(time) <= 0x400 * one(),
        one() <= size(time) * 0x20_0000,
        -(one() * one()) <= (size(way) * one() - size(time) * size(speed)) * 0x4000_0000 <= one()
            * one(),
        in_time.equals(number(THREE).times(time)),
        in_distance.equals(number(THREE).times(way)),
        within(in_time, 1097),
        within(in_distance, 1097),
    ensures
        is_near(slope_speed(in_time, in_distance), speed),
{
    let p = one();
    lemma_pow2_pos(PLACES as nat);
    lemma_one_is_large();
    lemma_limit_sizes();
    assert(units(0) == 0) by {
        assert(0 * pow2(0) == 0);
    }
    lemma_tripled_error(way);
    lemma_tripled_error(time);
    let n = number(THREE).times(way);
    let m = number(THREE).times(time);
    assert(is_unsigned(n) && is_unsigned(m)) by {
        reveal(Binary64::spec_times);
    }
    assert(size(n) == size(in_distance));
    assert(size(m) == size(in_time));
    assert(-(p as int) <= (size(n) - 3 * size(way)) * 0x4_0000_0000 <= p);
    assert(-(p as int) <= (size(m) - 3 * size(time)) * 0x200_0000_0000 <= p);
    lemma_slopes_arithmetic(
        size(n) as int,
        size(m) as int,
        size(way) as int,
        size(time) as int,
        size(speed) as int,
        p as int,
    );
    assert(p <= size(m) * 0x10_0000);
    assert(pow2(1054) <= size(m));
    law_quotient_is_bounded(n, m, 1097, 1054);
    lemma_nearly_the_speed(n, m, speed);
    let told = slope_speed(in_time, in_distance);
    if in_distance.equals(number(ZERO)) {
        assert(size(n.over(m)) == 0) by {
            reveal(Binary64::spec_over);
            assert(0 * one() == 0);
            lemma_nearest_zero(size(m));
        }
    } else {
        assert(in_distance == n && in_time == m);
        assert(!n.over(m).is_negative()) by {
            reveal(Binary64::spec_over);
        }
    }
}

/// Whether a speed is told to within a 128th of a metre per second.
pub open spec fn is_near(told: Binary64, speed: Binary64) -> bool {
    &&& is_unsigned(told)
    &&& -(one() as int) <= (size(told) - size(speed)) * 0x80 <= one()
}

/// An ordinary motion that leads some way starts with the one speed and ends with the other,
/// to within a 128th of a metre per second.
pub proof fn lemma_motion_has_its_speeds(
    initial_speed: Binary64,
    final_speed: Binary64,
    duration: Binary64,
    distance: Binary64,
)
    requires
        leads_unsigned(initial_speed, final_speed, duration, distance),
        is_ordinary(initial_speed, final_speed, duration, distance),
        number(NEAREST).at_most(distance),
    ensures
        ({
            let points = motion_points(initial_speed, final_speed, duration, distance);
            &&& points.len() == PATH_POINT_NUMBER
            &&& is_near(points[0].speed, initial_speed)
            &&& is_near(points[PATH_POINT_NUMBER - 1].speed, final_speed)
        }),
{
    let control = control_time(initial_speed, final_speed, duration, distance);
    let times = time_curve(control, duration);
    let distances = distance_curve(control, initial_speed, final_speed, distance);
    let p = one();
    lemma_pow2_pos(PLACES as nat);
    lemma_one_is_large();
    lemma_limit_sizes();
    lemma_curves_run_ahead(initial_speed, final_speed, duration, distance);
    lemma_controls_in_order(control, duration);
    lemma_sample_speeds(times, distances, PATH_POINT_NUMBER as nat);
    lemma_first_sample_position();
    lemma_last_sample_position();
    // the sizes of what is given
    lemma_signed_units_grow(initial_speed, number(FASTEST));
    lemma_signed_units_grow(final_speed, number(FASTEST));
    lemma_signed_units_grow(duration, number(LONGEST_MOTION));
    lemma_signed_units_grow(number(SHORTEST), duration);
    lemma_signed_units_grow(distance, number(FARTHEST));
    lemma_signed_units_grow(number(NEAREST), distance);
    lemma2_to64();
    lemma_pow2_adds(10, PLACES as nat);
    lemma_pow2_adds(17, PLACES as nat);
    // the control time
    let half = duration.times(number(PATH_CURVATURE));
    law_half_is_within(duration);
    lemma_signed_units_grow(half, duration);
    lemma2_to64_rest();
    lemma_pow2_adds(52, 1021);
    law_product_is_at_least(duration, number(PATH_CURVATURE), 1064, 1073);
    lemma_pow2_strictly_increases(1054, 1063);
    let first = if distance.less(initial_speed.times(half)) {
        distance.over(initial_speed)
    } else {
        half
    };
    lemma_held_time(half, initial_speed, distance);
    lemma_signed_units_grow(first, half);
    lemma_held_time(first, final_speed, distance);
    lemma_signed_units_grow(control, first);
    assert(at_least(control, 1054));
    let c = size(control);
    let v = size(initial_speed);
    let f = size(first);
    assert(c * v <= f * v) by (nonlinear_arith)
        requires
            c <= f,
    ;
    lemma_control_way(control, initial_speed, distance);
    lemma_control_way(control, final_speed, distance);
    // the slopes at the start
    lemma_slope_at_the_start(times, 1084);
    lemma_slope_at_the_start(distances, 1091);
    lemma_differences(times, 1084);
    lemma_differences(distances, 1091);
    lemma_slope_is_bounded(times, number(ZERO), 1084);
    lemma_slope_is_bounded(distances, number(ZERO), 1091);
    lemma_within_more(times.derivative(number(ZERO)), 1090, 1097);
    let way = distances.start_control;
    lemma_signed_units_grow(way, distance);
    lemma_same_size(distances.start_control.minus(distances.start), way);
    lemma_same_size(times.start_control.minus(times.start), control);
    lemma_speed_of_slopes(
        times.derivative(number(ZERO)),
        distances.derivative(number(ZERO)),
        distances.start_control.minus(distances.start),
        times.start_control.minus(times.start),
        initial_speed,
    );
    // the slopes at the end
    lemma_slope_at_the_end(times, 1084);
    lemma_slope_at_the_end(distances, 1091);
    lemma_slope_is_bounded(times, number(ONE), 1084);
    lemma_slope_is_bounded(distances, number(ONE), 1091);
    lemma_within_more(times.derivative(number(ONE)), 1090, 1097);
    let last_way = control.times(final_speed).min(distance);
    lemma_twice_taken(distance, last_way);
    lemma_signed_units_grow(control, duration);
    lemma_twice_taken(duration, control);
    let back = distance.minus(distance.minus(last_way));
    let rest = duration.minus(duration.minus(control));
    law_difference_is_within(distance, distance.minus(last_way));
    law_difference_is_within(distance, last_way);
    law_difference_is_within(duration, duration.minus(control));
    lemma_signed_units_grow(back, distance);
    lemma_signed_units_grow(rest, duration);
    lemma_end_arithmetic(
        size(back) as int,
        size(rest) as int,
        size(last_way) as int,
        c as int,
        size(final_speed) as int,
        p as int,
    );
    lemma_speed_of_slopes(
        times.derivative(number(ONE)),
        distances.derivative(number(ONE)),
        back,
        rest,
        final_speed,
    );
}

/// Numbers that are equal have one size.
proof fn lemma_same_size(a: Binary64, b: Binary64)
    requires
        a.equals(b),
    ensures
        size(a) == size(b),
{
}

/// The arithmetic of what comes back of a way and of a time.
proof fn lemma_end_arithmetic(h: int, g: int, m: int, c: int, v: int, p: int)
    requires
        0 <= v <= 0x400 * p,
        p > 0,
        -p <= (h - m) * 0x8_0000_0000 <= p,
        -p <= (g - c) * 0x400_0000_0000 <= p,
        -(p * p) <= (m * p - c * v) * 0x1_0000_0000 <= p * p,
    ensures
        -(p * p) <= (h * p - g * v) * 0x4000_0000 <= p * p,
{
    let x = (h - m) * p;
    let y = m * p - c * v;
    let z = (g - c) * v;
    assert(h * p - g * v == x + y - z) by (nonlinear_arith)
        requires
            x == (h - m) * p,
            y == m * p - c * v,
            z == (g - c) * v,
    ;
    let e = h - m;
    let f = g - c;
    assert(-(p * p) <= x * 0x8_0000_0000 <= p * p) by (nonlinear_arith)
        requires
            x == e * p,
            -p <= e * 0x8_0000_0000 <= p,
            p > 0,
    ;
    assert(-(p * p) <= z * 0x1_0000_0000 <= p * p) by (nonlinear_arith)
        requires
            z == f * v,
            -p <= f * 0x400_0000_0000 <= p,
            0 <= v <= 0x400 * p,
            p > 0,
    {
        let w = f * 0x400_0000_0000;
        assert(-(p * v) <= w * v <= p * v);
        assert(p * v <= 0x400 * (p * p));
        assert(z * 0x400_0000_0000 == w * v);
    }
}

} // verus!
