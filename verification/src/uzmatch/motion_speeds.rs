//! How large the speeds of a motion are, where no zero has a sign.
use vstd::arithmetic::mul::lemma_mul_is_associative;
use vstd::arithmetic::power2::{
    lemma2_to64, lemma2_to64_rest, lemma_pow2_adds, lemma_pow2_pos, lemma_pow2_strictly_increases,
    pow2,
};
use vstd::prelude::*;

use crate::arithmetic::{
    law_difference_with_itself, lemma_signed_units_grow, lemma_units_grow, signed_units, PLACES,
};
use crate::arithmetic_laws::{
    law_difference_is_within, law_one_is_neutral, law_sum_never_shrinks, law_zero_absorbs,
    law_zero_is_neutral, lemma_units_of_one,
};
use crate::binary64::{number, Binary64, HALF, INFINITE_MAGNITUDE, ONE, THREE, ZERO};
use crate::rounding::{exponent, lemma_nearest_cancels, nearest, significand, units};
use crate::rounding_bounds::{
    at_least, law_difference_is_at_least, law_fraction_is_within, law_product_is_at_least,
    law_product_is_bounded, law_product_keeps_order, law_quotient_is_bounded, law_sum_is_bounded,
    lemma_from_units_beside, lemma_integer_is_bounded, lemma_nearest_at_least,
    lemma_nearest_is_at_least, lemma_nearest_is_bounded, lemma_nearest_within, lemma_negated_units,
    lemma_scaled_significand_is_a_number, lemma_units_between_powers, lemma_units_step,
    lemma_within_more, within,
};
use crate::uzmatch::curve_bounds::{
    lemma_position_leaves_room, lemma_remainder, LATEST_POSITION, LEAST_REMAINDER,
};
use crate::uzmatch::motion::{
    control_time, distance_curve, first_reaching, motion_points, point_at, sample_position, samples,
    slope_speed, time_curve, CubicBezierCurve, LAST_SAMPLE, PATH_CURVATURE, PATH_POINT_NUMBER, SIX,
};
use crate::uzmatch::motion_bounds::{
    between, is_unsigned, leads_unsigned, lemma_curves_run_ahead, lemma_first_sample_position,
    lemma_last_sample_position, lemma_point_within, lemma_points_lead_to_the_ends,
    lemma_sample_position, runs_ahead, share,
};

verus! {

/// 1024.0: no vehicle is faster, in metres per second.
pub const FASTEST: u64 = 0x4090_0000_0000_0000;

/// 1 / 1024: no motion is shorter, in seconds.
pub const SHORTEST: u64 = 0x3f50_0000_0000_0000;

/// 1024.0: no motion lasts longer, in seconds.
pub const LONGEST_MOTION: u64 = 0x4090_0000_0000_0000;

/// 131072.0: no motion leads farther, in metres.
pub const FARTHEST: u64 = 0x4100_0000_0000_0000;

/// Whether a motion asks for what a vehicle can do.
pub open spec fn is_ordinary(
    initial_speed: Binary64,
    final_speed: Binary64,
    duration: Binary64,
    distance: Binary64,
) -> bool {
    &&& initial_speed.at_most(number(FASTEST))
    &&& final_speed.at_most(number(FASTEST))
    &&& number(SHORTEST).at_most(duration)
    &&& duration.at_most(number(LONGEST_MOTION))
    &&& distance.at_most(number(FARTHEST))
}

/// An amount at most a number is within what that is within.
proof fn lemma_amount_within(x: Binary64, limit: Binary64, k: nat)
    requires
        is_unsigned(x),
        is_unsigned(limit),
        x.at_most(limit),
        within(limit, k),
    ensures
        within(x, k),
{
    lemma_signed_units_grow(x, limit);
}

/// The slope of a curve that runs ahead is not much larger than the curve.
pub proof fn lemma_slope_is_bounded(curve: CubicBezierCurve, t: Binary64, k: nat)
    requires
        runs_ahead(curve),
        within(curve.finish, k),
        PLACES <= k <= 1200,
        is_unsigned(t),
        t.at_most(number(ONE)),
    ensures
        within(curve.derivative(t), k + 6),
{
    let s = number(ONE).minus(t);
    let three = number(THREE);
    let six = number(SIX);
    law_difference_is_within(number(ONE), t);
    lemma_amount_within(curve.start_control, curve.finish, k);
    lemma_amount_within(curve.finish_control, curve.finish, k);
    lemma_pow2_pos(k);
    assert(units(0) == 0) by {
        assert(0 * pow2(0) == 0);
    }
    law_sum_is_bounded(curve.start_control, curve.start, k);
    law_sum_is_bounded(curve.finish_control, curve.start_control, k);
    law_sum_is_bounded(curve.finish, curve.finish_control, k);
    lemma_units_between_powers(THREE);
    lemma_units_between_powers(SIX);
    law_fraction_is_within(three, s);
    law_fraction_is_within(three.times(s), s);
    law_fraction_is_within(six, s);
    law_fraction_is_within(six.times(s), t);
    law_fraction_is_within(three, t);
    law_fraction_is_within(three.times(t), t);
    lemma_amount_within(three.times(s).times(s), three, 1076);
    lemma_amount_within(six.times(s).times(t), six, 1077);
    lemma_amount_within(three.times(t).times(t), three, 1076);
    let a = three.times(s).times(s).times(curve.start_control.minus(curve.start));
    let b = six.times(s).times(t).times(curve.finish_control.minus(curve.start_control));
    let c = three.times(t).times(t).times(curve.finish.minus(curve.finish_control));
    law_product_is_bounded(
        three.times(s).times(s),
        curve.start_control.minus(curve.start),
        1076,
        k + 1,
    );
    law_product_is_bounded(
        six.times(s).times(t),
        curve.finish_control.minus(curve.start_control),
        1077,
        k + 1,
    );
    law_product_is_bounded(
        three.times(t).times(t),
        curve.finish.minus(curve.finish_control),
        1076,
        k + 1,
    );
    lemma_within_more(a, k + 3, k + 4);
    law_sum_is_bounded(a, b, k + 4);
    lemma_within_more(c, k + 3, k + 5);
    law_sum_is_bounded(a.plus(b), c, k + 5);
}

/// What two slopes are where the one in time is not too small.
proof fn lemma_steep_enough(in_time: Binary64, in_distance: Binary64)
    requires
        within(in_distance, 1097),
        at_least(in_time, 974),
    ensures
        is_unsigned(slope_speed(in_time, in_distance)),
        within(slope_speed(in_time, in_distance), 1197),
{
    lemma_pow2_pos(1197);
    assert(units(0) == 0) by {
        assert(0 * pow2(0) == 0);
    }
    law_quotient_is_bounded(in_distance, in_time, 1097, 974);
}

/// Half of a duration is exact, and the control point of the finish is not before that of
/// the start.
pub proof fn lemma_controls_in_order(control: Binary64, duration: Binary64)
    requires
        is_unsigned(control),
        is_unsigned(duration),
        number(SHORTEST).at_most(duration),
        control.at_most(duration.times(number(PATH_CURVATURE))),
    ensures
        control.at_most(duration.minus(control)),
        is_unsigned(duration.minus(control)),
        duration.minus(control).at_most(duration),
{
    reveal(Binary64::spec_times);
    reveal(Binary64::spec_plus);
    let m = duration.magnitude();
    let u = units(m);
    let p = pow2(PLACES as nat);
    let e = exponent(m);
    let h = pow2((e - 1) as nat);
    lemma2_to64();
    lemma2_to64_rest();
    lemma_pow2_adds(52, 1021);
    lemma_pow2_adds(1, 1073);
    assert(units(HALF) == pow2(1073));
    lemma_pow2_adds(1, (e - 1) as nat);
    let q = significand(m);
    assert(u == (q * h) * 2) by (nonlinear_arith)
        requires
            u == q * pow2(e),
            pow2(e) == 2 * h,
    ;
    assert(u * pow2(1073) == (q * h) * p) by (nonlinear_arith)
        requires
            u == (q * h) * 2,
            p == 2 * pow2(1073),
    ;
    lemma_pow2_pos(PLACES as nat);
    lemma_nearest_cancels(q * h, 1, p);
    assert(1 * p == p);
    lemma_scaled_significand_is_a_number(q, (e - 1) as nat);
    let half = duration.times(number(PATH_CURVATURE));
    assert(units(half.magnitude()) == q * h);
    lemma_signed_units_grow(control, half);
    lemma_signed_units_grow(half, duration);
    lemma_signed_units_grow(duration, half);
    lemma_negated_units(control);
    let c = units(control.magnitude());
    lemma_from_units_beside(u - c, false, half);
    lemma_signed_units_grow(duration, control);
    law_difference_is_within(duration, control);
}

/// Whether the points of a curve that runs ahead lie within a power of two.
pub open spec fn is_bounded(curve: CubicBezierCurve, k: nat) -> bool {
    runs_ahead(curve) && within(curve.finish, k) && PLACES <= k <= 1200
}

/// The differences between the points of a bounded curve are finite.
pub proof fn lemma_differences(curve: CubicBezierCurve, k: nat)
    requires
        is_bounded(curve, k),
    ensures
        is_unsigned(curve.start_control.minus(curve.start)),
        curve.start_control.minus(curve.start).equals(curve.start_control),
        within(curve.start_control.minus(curve.start), k),
        within(curve.finish_control.minus(curve.start_control), k + 1),
        is_unsigned(curve.finish.minus(curve.finish_control)),
        within(curve.finish.minus(curve.finish_control), k),
{
    lemma_amount_within(curve.start_control, curve.finish, k);
    lemma_amount_within(curve.finish_control, curve.finish, k);
    law_difference_is_within(curve.start_control, curve.start);
    law_zero_is_neutral(curve.start.negated(), curve.start_control);
    lemma_amount_within(curve.start_control.minus(curve.start), curve.start_control, k);
    law_sum_is_bounded(curve.finish_control, curve.start_control, k);
    law_difference_is_within(curve.finish, curve.finish_control);
    lemma_amount_within(curve.finish.minus(curve.finish_control), curve.finish, k);
}

/// The slope at the start comes from the first control point alone.
pub proof fn lemma_slope_at_the_start(curve: CubicBezierCurve, k: nat)
    requires
        is_bounded(curve, k),
    ensures
        curve.derivative(number(ZERO)).equals(
            number(THREE).times(curve.start_control.minus(curve.start)),
        ),
{
    let t = number(ZERO);
    let one = number(ONE);
    let s = one.minus(t);
    let three = number(THREE);
    let six = number(SIX);
    lemma_differences(curve, k);
    law_zero_is_neutral(t.negated(), one);
    assert(s == one);
    law_one_is_neutral(three);
    law_one_is_neutral(six);
    lemma_units_between_powers(THREE);
    let first = three.times(curve.start_control.minus(curve.start));
    law_product_is_bounded(three, curve.start_control.minus(curve.start), 1076, k);
    law_zero_absorbs(t, six);
    let m = curve.finish_control.minus(curve.start_control);
    law_zero_absorbs(six.times(t), m);
    law_zero_absorbs(t, three);
    law_zero_absorbs(three.times(t), t);
    let g = curve.finish.minus(curve.finish_control);
    law_zero_absorbs(three.times(t).times(t), g);
    law_zero_is_neutral(six.times(t).times(m), first);
    law_zero_is_neutral(three.times(t).times(t).times(g), first.plus(six.times(t).times(m)));
}

/// The slope at the end comes from the last control point alone.
pub proof fn lemma_slope_at_the_end(curve: CubicBezierCurve, k: nat)
    requires
        is_bounded(curve, k),
    ensures
        curve.derivative(number(ONE)).equals(
            number(THREE).times(curve.finish.minus(curve.finish_control)),
        ),
{
    let t = number(ONE);
    let s = t.minus(t);
    let three = number(THREE);
    let six = number(SIX);
    lemma_differences(curve, k);
    law_difference_with_itself(t);
    law_one_is_neutral(three);
    lemma_units_between_powers(THREE);
    let c = curve.start_control.minus(curve.start);
    let m = curve.finish_control.minus(curve.start_control);
    let g = curve.finish.minus(curve.finish_control);
    law_zero_absorbs(s, three);
    law_zero_absorbs(three.times(s), s);
    law_zero_absorbs(three.times(s).times(s), c);
    let first = three.times(s).times(s).times(c);
    law_zero_absorbs(s, six);
    law_zero_absorbs(six.times(s), t);
    law_zero_absorbs(six.times(s).times(t), m);
    let second = six.times(s).times(t).times(m);
    law_product_is_bounded(three, g, 1076, k);
    law_zero_is_neutral(first, second);
    law_zero_is_neutral(first.plus(second), three.times(g));
}

/// A finite number times a power of two is a number where it is not too large.
proof fn lemma_scaled(x: Binary64, r: nat) -> (magnitude: u64)
    requires
        x.is_finite(),
        exponent(x.magnitude()) + r <= 2000,
    ensures
        magnitude < INFINITE_MAGNITUDE,
        units(magnitude) == units(x.magnitude()) * pow2(r),
{
    let e = exponent(x.magnitude());
    let q = significand(x.magnitude());
    lemma_pow2_adds(e, r);
    lemma_scaled_significand_is_a_number(q, e + r);
    assert((q * pow2(e)) * pow2(r) == q * (pow2(e) * pow2(r))) by (nonlinear_arith);
    nearest(q * pow2(e + r), 1) as u64
}

/// Three in units.
pub proof fn lemma_units_of_three()
    ensures
        units(THREE) == 3 * pow2(PLACES as nat),
{
    lemma2_to64_rest();
    lemma_pow2_adds(51, 1023);
    lemma_mul_is_associative(3, pow2(51) as int, pow2(1023) as int);
}

/// The way to the first control point is at most the fastest speed allows.
proof fn lemma_way_to_the_control(control: Binary64, speed: Binary64)
    requires
        is_unsigned(control),
        control.at_most(number(LONGEST_MOTION)),
        is_unsigned(speed),
        speed.at_most(number(FASTEST)),
    ensures
        is_unsigned(control.times(speed)),
        units(control.times(speed).magnitude()) <= units(control.magnitude()) * 1024,
{
    reveal(Binary64::spec_times);
    let p = pow2(PLACES as nat);
    let c = units(control.magnitude());
    let v = units(speed.magnitude());
    lemma_pow2_pos(PLACES as nat);
    lemma2_to64();
    lemma2_to64_rest();
    lemma_pow2_adds(10, PLACES as nat);
    lemma_pow2_adds(52, 1032);
    assert(units(FASTEST) == 1024 * p);
    lemma_signed_units_grow(speed, number(FASTEST));
    assert(c * v <= (c * 1024) * p) by (nonlinear_arith)
        requires
            v <= 1024 * p,
    ;
    let scaled = lemma_scaled(control, 10);
    lemma_nearest_is_bounded(c * v, p, scaled);
}

/// Three times a number is at least that number, and at most four times as large as what
/// bounds it.
proof fn lemma_tripled(x: Binary64, control: Binary64, n: nat, r: nat)
    requires
        is_unsigned(x),
        is_unsigned(control),
        control.at_most(number(LONGEST_MOTION)),
        pow2(r) == 4 * n,
        r <= 12,
        units(x.magnitude()) <= units(control.magnitude()) * n,
    ensures
        is_unsigned(number(THREE).times(x)),
        units(number(THREE).times(x).magnitude()) <= units(control.magnitude()) * (4 * n),
        units(x.magnitude()) <= units(number(THREE).times(x).magnitude()),
{
    reveal(Binary64::spec_times);
    let p = pow2(PLACES as nat);
    let c = units(control.magnitude());
    let w = units(x.magnitude());
    lemma_pow2_pos(PLACES as nat);
    lemma_units_of_three();
    let scaled = lemma_scaled(control, r);
    assert((3 * p) * w <= (c * (4 * n)) * p) by (nonlinear_arith)
        requires
            w <= c * n,
    ;
    lemma_nearest_is_bounded((3 * p) * w, p, scaled);
    assert(w * p <= (3 * p) * w) by (nonlinear_arith);
    lemma_nearest_is_at_least((3 * p) * w, p, x.magnitude());
    let m = number(THREE).times(x).magnitude();
    if x.magnitude() < m {
        lemma_units_grow(x.magnitude(), m);
    }
}

/// A quotient of numbers in a bounded proportion is bounded.
proof fn lemma_proportion(x: Binary64, y: Binary64)
    requires
        is_unsigned(x),
        is_unsigned(y),
        !y.is_zero(),
        units(x.magnitude()) <= 4096 * units(y.magnitude()),
    ensures
        within(x.over(y), 1197),
{
    reveal(Binary64::spec_over);
    let p = pow2(PLACES as nat);
    let a = units(x.magnitude());
    let b = units(y.magnitude());
    lemma2_to64();
    assert(units(0) == 0) by {
        assert(0 * pow2(0) == 0);
    }
    lemma_units_grow(0, y.magnitude());
    lemma_pow2_adds(12, PLACES as nat);
    assert(a * p <= pow2(1086) * b) by (nonlinear_arith)
        requires
            a <= 4096 * b,
            pow2(1086) == 4096 * p,
    ;
    lemma_nearest_within(a * p, b, 1086);
    lemma_within_more(x.over(y), 1086, 1197);
}

/// The speed at the start is at most a few times the fastest.
proof fn lemma_speed_at_the_start(
    control: Binary64,
    initial_speed: Binary64,
    final_speed: Binary64,
    duration: Binary64,
    distance: Binary64,
)
    requires
        is_unsigned(control),
        control.at_most(duration),
        is_unsigned(initial_speed),
        initial_speed.at_most(number(FASTEST)),
        duration.at_most(number(LONGEST_MOTION)),
        is_bounded(time_curve(control, duration), 1084),
        is_bounded(distance_curve(control, initial_speed, final_speed, distance), 1091),
    ensures
        ({
            let speed = slope_speed(
                time_curve(control, duration).derivative(number(ZERO)),
                distance_curve(control, initial_speed, final_speed, distance).derivative(
                    number(ZERO),
                ),
            );
            is_unsigned(speed) && within(speed, 1197)
        }),
{
    let times = time_curve(control, duration);
    let distances = distance_curve(control, initial_speed, final_speed, distance);
    let three = number(THREE);
    lemma_pow2_pos(1197);
    assert(units(0) == 0) by {
        assert(0 * pow2(0) == 0);
    }
    lemma2_to64();
    lemma_slope_at_the_start(times, 1084);
    lemma_slope_at_the_start(distances, 1091);
    lemma_differences(times, 1084);
    lemma_differences(distances, 1091);
    let in_time = times.derivative(number(ZERO));
    let in_distance = distances.derivative(number(ZERO));
    if !in_distance.equals(number(ZERO)) && number(ZERO).less(in_time) {
        let c = control.minus(times.start);
        let way = distances.start_control.minus(distances.start);
        lemma_way_to_the_control(control, initial_speed);
        lemma_signed_units_grow(distances.start_control, control.times(initial_speed));
        assert(way.magnitude() == distances.start_control.magnitude());
        lemma_tripled(way, control, 1024, 12);
        assert(c.magnitude() == control.magnitude());
        lemma_tripled(c, control, 1, 2);
        assert(in_distance == three.times(way));
        assert(in_time == three.times(c));
        lemma_proportion(in_distance, in_time);
    }
}

/// The speed at the end is bounded too: what remains of the duration beyond the last control
/// point is nothing or not too little.
proof fn lemma_speed_at_the_end(
    control: Binary64,
    duration: Binary64,
    distances: CubicBezierCurve,
)
    requires
        number(SHORTEST).at_most(duration),
        is_bounded(time_curve(control, duration), 1084),
        is_bounded(distances, 1091),
    ensures
        ({
            let speed = slope_speed(
                time_curve(control, duration).derivative(number(ONE)),
                distances.derivative(number(ONE)),
            );
            is_unsigned(speed) && within(speed, 1197)
        }),
{
    let times = time_curve(control, duration);
    let three = number(THREE);
    let in_time = times.derivative(number(ONE));
    let in_distance = distances.derivative(number(ONE));
    lemma_slope_at_the_end(times, 1084);
    lemma_slope_is_bounded(times, number(ONE), 1084);
    lemma_slope_is_bounded(distances, number(ONE), 1091);
    lemma_differences(times, 1084);
    lemma_pow2_pos(1197);
    lemma_pow2_pos(974);
    assert(units(0) == 0) by {
        assert(0 * pow2(0) == 0);
    }
    if !in_distance.equals(number(ZERO)) && number(ZERO).less(in_time) {
        let e = times.finish_control;
        let g = duration.minus(e);
        if !e.less(duration) {
            assert(e == duration);
            law_difference_with_itself(duration);
            law_zero_absorbs(g, three);
        }
        // the next number below the duration is far enough
        let m = (duration.magnitude() - 1) as u64;
        lemma_units_step(duration.magnitude());
        if e.magnitude() < m {
            lemma_units_grow(e.magnitude(), m);
        }
        assert(exponent(m) >= 1011);
        lemma_pow2_strictly_increases(974, exponent(m));
        law_difference_is_at_least(duration, e, 974);
        lemma_units_between_powers(THREE);
        lemma_pow2_strictly_increases(PLACES as nat, 1075);
        law_product_is_bounded(three, g, 1076, 1084);
        law_product_is_at_least(three, g, PLACES as nat, 974);
        lemma_steep_enough(in_time, in_distance);
    }
}

/// All samples but the first are taken some way after the start.
proof fn lemma_position_is_after_the_start(index: int)
    requires
        1 <= index < 49,
    ensures
        at_least(sample_position(index), 1068),
{
    reveal(Binary64::spec_from_integer);
    reveal(Binary64::spec_over);
    let p = pow2(PLACES as nat);
    lemma_pow2_pos(PLACES as nat);
    lemma2_to64();
    lemma2_to64_rest();
    lemma_pow2_adds(47, 1027);
    lemma_mul_is_associative(49, pow2(47) as int, pow2(1027) as int);
    assert(units(LAST_SAMPLE) == 49 * p);
    let n = Binary64::from_integer(index as u128);
    lemma_integer_is_bounded(index as u128);
    assert(p <= index * p) by (nonlinear_arith)
        requires
            index >= 1,
    ;
    assert(p * 1 == p);
    lemma_nearest_at_least((index * p) as nat, 1, PLACES as nat);
    let u = units(n.magnitude());
    lemma_pow2_adds(6, 1068);
    assert(pow2(1068) * (49 * p) <= u * p) by (nonlinear_arith)
        requires
            u >= p,
            p == 64 * pow2(1068),
    {
        assert(pow2(1068) * 49 <= u);
    }
    lemma_position_leaves_room(index);
    assert(units(0) == 0) by {
        assert(0 * pow2(0) == 0);
    }
    lemma_nearest_at_least(u * p, 49 * p, 1068);
}

/// Between the ends the slope in time is not too small.
proof fn lemma_slope_between_the_ends(
    control: Binary64,
    duration: Binary64,
    index: int,
)
    requires
        1 <= index < 49,
        is_unsigned(control),
        number(SHORTEST).at_most(duration),
        control.at_most(duration.minus(control)),
        is_bounded(time_curve(control, duration), 1084),
    ensures
        at_least(time_curve(control, duration).derivative(sample_position(index)), 974),
{
    let times = time_curve(control, duration);
    let t = sample_position(index);
    let s = number(ONE).minus(t);
    let three = number(THREE);
    let six = number(SIX);
    lemma_differences(times, 1084);
    lemma_position_leaves_room(index);
    lemma_position_is_after_the_start(index);
    law_difference_is_within(number(ONE), t);
    // the factors
    lemma2_to64_rest();
    lemma_remainder_is_large(t);
    lemma_units_between_powers(THREE);
    lemma_units_between_powers(SIX);
    lemma_pow2_strictly_increases(PLACES as nat, 1075);
    lemma_pow2_strictly_increases(PLACES as nat, 1076);
    law_fraction_is_within(three, s);
    law_fraction_is_within(three.times(s), s);
    law_fraction_is_within(six, s);
    law_fraction_is_within(six.times(s), t);
    law_fraction_is_within(three, t);
    law_fraction_is_within(three.times(t), t);
    law_product_is_at_least(three, s, PLACES as nat, 1068);
    law_product_is_at_least(three.times(s), s, 1068, 1068);
    law_product_is_at_least(six, s, PLACES as nat, 1068);
    law_product_is_at_least(six.times(s), t, 1068, 1068);
    // the differences
    let c = control.minus(times.start);
    let m = times.finish_control.minus(control);
    let g = duration.minus(times.finish_control);
    law_difference_is_within(times.finish_control, control);
    lemma_slope_terms(times, t);
    let first = three.times(s).times(s).times(c);
    let second = six.times(s).times(t).times(m);
    let third = three.times(t).times(t).times(g);
    law_sum_never_shrinks(first, second);
    law_sum_never_shrinks(first.plus(second), third);
    let slope = times.derivative(t);
    lemma_slope_is_bounded(times, t, 1084);
    lemma_signed_units_grow(control, c);
    if pow2(1054) <= units(control.magnitude()) {
        law_product_is_at_least(three.times(s).times(s), c, 1062, 1054);
        lemma_signed_units_grow(first, slope);
        lemma_pow2_strictly_increases(974, 1042);
    } else {
        lemma_pow2_adds(52, 1012);
        lemma_signed_units_grow(number(SHORTEST), duration);
        lemma_pow2_adds(1, 1063);
        lemma_pow2_adds(1, 1062);
        lemma_pow2_strictly_increases(1054, 1062);
        lemma2_to64();
        law_difference_is_at_least(duration, control, 1063);
        law_difference_is_at_least(times.finish_control, control, 1062);
        law_product_is_at_least(six.times(s).times(t), m, 1062, 1062);
        lemma_signed_units_grow(second, slope);
        lemma_pow2_strictly_increases(974, 1050);
    }
}

/// What remains beyond a position before the last sample is not too little.
proof fn lemma_remainder_is_large(t: Binary64)
    requires
        is_unsigned(t),
        t.at_most(number(LATEST_POSITION)),
    ensures
        at_least(number(ONE).minus(t), 1068),
{
    let s = number(ONE).minus(t);
    lemma_remainder(t);
    law_difference_is_within(number(ONE), t);
    lemma_signed_units_grow(number(LEAST_REMAINDER), s);
    lemma_units_between_powers(LEAST_REMAINDER);
}

/// The terms of the slope of a bounded curve with control points in order are amounts.
proof fn lemma_slope_terms(curve: CubicBezierCurve, t: Binary64)
    requires
        is_bounded(curve, 1084),
        curve.start_control.at_most(curve.finish_control),
        is_unsigned(t),
        t.at_most(number(ONE)),
    ensures
        ({
            let s = number(ONE).minus(t);
            let first = number(THREE).times(s).times(s).times(
                curve.start_control.minus(curve.start),
            );
            let second = number(SIX).times(s).times(t).times(
                curve.finish_control.minus(curve.start_control),
            );
            let third = number(THREE).times(t).times(t).times(
                curve.finish.minus(curve.finish_control),
            );
            is_unsigned(first) && is_unsigned(second) && is_unsigned(third)
        }),
{
    let s = number(ONE).minus(t);
    let three = number(THREE);
    let six = number(SIX);
    law_difference_is_within(number(ONE), t);
    lemma_differences(curve, 1084);
    law_difference_is_within(curve.finish_control, curve.start_control);
    lemma_units_between_powers(THREE);
    lemma_units_between_powers(SIX);
    law_fraction_is_within(three, s);
    law_fraction_is_within(three.times(s), s);
    law_fraction_is_within(six, s);
    law_fraction_is_within(six.times(s), t);
    law_fraction_is_within(three, t);
    law_fraction_is_within(three.times(t), t);
    lemma_amount_within(three.times(s).times(s), three, 1076);
    lemma_amount_within(six.times(s).times(t), six, 1077);
    lemma_amount_within(three.times(t).times(t), three, 1076);
    let c = curve.start_control.minus(curve.start);
    let m = curve.finish_control.minus(curve.start_control);
    let g = curve.finish.minus(curve.finish_control);
    law_product_is_bounded(three.times(s).times(s), c, 1076, 1084);
    law_product_is_bounded(six.times(s).times(t), m, 1077, 1085);
    law_product_is_bounded(three.times(t).times(t), g, 1076, 1084);
    law_product_keeps_order(three.times(s).times(s), three.times(s).times(s), c);
    law_product_keeps_order(six.times(s).times(t), six.times(s).times(t), m);
    law_product_keeps_order(three.times(t).times(t), three.times(t).times(t), g);
}

/// The speed of a sample is that on the curves at its position.
pub proof fn lemma_sample_speeds(times: CubicBezierCurve, distances: CubicBezierCurve, n: nat)
    ensures
        samples(times, distances, n).len() == n,
        forall|i: int|
            0 <= i < n ==> (#[trigger] samples(times, distances, n)[i]).speed == slope_speed(
                times.derivative(sample_position(i)),
                distances.derivative(sample_position(i)),
            ),
    decreases n,
{
    if n > 0 {
        let known = samples(times, distances, (n - 1) as nat);
        lemma_sample_speeds(times, distances, (n - 1) as nat);
        assert forall|i: int| 0 <= i < n implies (#[trigger] samples(times, distances, n)[i]).speed
            == slope_speed(
            times.derivative(sample_position(i)),
            distances.derivative(sample_position(i)),
        ) by {
            if i < n - 1 {
                assert(samples(times, distances, n)[i] == known[i]);
            }
        }
    }
}

/// The speeds of the samples of an ordinary motion are amounts.
proof fn lemma_sample_speed_is_an_amount(
    initial_speed: Binary64,
    final_speed: Binary64,
    duration: Binary64,
    distance: Binary64,
    index: int,
)
    requires
        leads_unsigned(initial_speed, final_speed, duration, distance),
        is_ordinary(initial_speed, final_speed, duration, distance),
        0 <= index < PATH_POINT_NUMBER,
    ensures
        ({
            let speed = motion_points(initial_speed, final_speed, duration, distance)[index].speed;
            is_unsigned(speed) && within(speed, 1197)
        }),
{
    let control = control_time(initial_speed, final_speed, duration, distance);
    let times = time_curve(control, duration);
    let distances = distance_curve(control, initial_speed, final_speed, distance);
    lemma_curves_run_ahead(initial_speed, final_speed, duration, distance);
    lemma_sample_speeds(times, distances, PATH_POINT_NUMBER as nat);
    lemma_controls_in_order(control, duration);
    // how large the curves are
    lemma2_to64_rest();
    lemma_pow2_adds(52, 1032);
    lemma_pow2_adds(52, 1039);
    lemma_amount_within(duration, number(LONGEST_MOTION), 1084);
    lemma_amount_within(distance, number(FARTHEST), 1091);
    if index == 0 {
        lemma_first_sample_position();
        lemma_speed_at_the_start(control, initial_speed, final_speed, duration, distance);
    } else if index == PATH_POINT_NUMBER - 1 {
        lemma_last_sample_position();
        lemma_speed_at_the_end(control, duration, distances);
    } else {
        let position = sample_position(index);
        lemma_sample_position(index);
        lemma_slope_between_the_ends(control, duration, index);
        lemma_slope_is_bounded(distances, position, 1091);
        lemma_steep_enough(times.derivative(position), distances.derivative(position));
    }
}

/// What lies between two amounts, whichever is the greater, is not below zero.
proof fn lemma_between_is_not_negative(previous: Binary64, next: Binary64, share: Binary64)
    requires
        is_unsigned(previous),
        is_unsigned(next),
        within(previous, 1197),
        within(next, 1197),
        is_unsigned(share),
        share.at_most(number(ONE)),
    ensures
        between(previous, next, share).is_finite(),
        number(ZERO).at_most(between(previous, next, share)),
{
    let whole = next.minus(previous);
    let part = whole.times(share);
    law_sum_is_bounded(next, previous, 1197);
    lemma_units_of_one();
    lemma_amount_within(share, number(ONE), PLACES as nat);
    law_product_is_bounded(whole, share, 1198, PLACES as nat);
    lemma_within_more(previous, 1197, 1198);
    law_sum_is_bounded(previous, part, 1198);
    if previous.at_most(next) {
        law_difference_is_within(next, previous);
        law_fraction_is_within(whole, share);
        law_sum_never_shrinks(previous, part);
    } else {
        reveal(Binary64::spec_plus);
        reveal(Binary64::spec_times);
        let p = pow2(PLACES as nat);
        let x = units(previous.magnitude());
        let y = units(next.magnitude());
        let w = units(whole.magnitude());
        let f = units(share.magnitude());
        lemma_pow2_pos(PLACES as nat);
        lemma_negated_units(previous);
        lemma_signed_units_grow(next, previous);
        assert(x * 1 == x);
        lemma_nearest_is_bounded((x - y) as nat, 1, previous.magnitude());
        assert(w <= x);
        assert(w * f <= w * p) by (nonlinear_arith)
            requires
                f <= p,
        ;
        lemma_nearest_is_bounded(w * f, p, whole.magnitude());
        assert(units(0) == 0) by {
            assert(0 * pow2(0) == 0);
        }
        assert(-x <= signed_units(part));
        lemma_from_units_beside(
            signed_units(previous) + signed_units(part),
            previous.is_negative() && part.is_negative(),
            number(ZERO),
        );
    }
}

/// Within the duration of a motion that leads forward by what a vehicle can do, the speed is
/// finite and never below zero.
pub proof fn lemma_motion_speed_is_never_negative(
    initial_speed: Binary64,
    final_speed: Binary64,
    duration: Binary64,
    distance: Binary64,
    time: Binary64,
)
    requires
        leads_unsigned(initial_speed, final_speed, duration, distance),
        is_ordinary(initial_speed, final_speed, duration, distance),
        number(ZERO).at_most(time),
        time.at_most(duration),
    ensures
        ({
            let points = motion_points(initial_speed, final_speed, duration, distance);
            let speed = point_at(points, time).speed;
            speed.is_finite() && number(ZERO).at_most(speed)
        }),
{
    let points = motion_points(initial_speed, final_speed, duration, distance);
    lemma_points_lead_to_the_ends(initial_speed, final_speed, duration, distance);
    lemma_point_within(points, duration, distance, time);
    let index = first_reaching(points, time, 0) as int;
    lemma_sample_speed_is_an_amount(initial_speed, final_speed, duration, distance, index);
    if index > 0 {
        lemma_sample_speed_is_an_amount(initial_speed, final_speed, duration, distance, index - 1);
        lemma_between_is_not_negative(
            points[index - 1].speed,
            points[index].speed,
            share(points[index - 1].time, time, points[index].time),
        );
    }
}

} // verus!
