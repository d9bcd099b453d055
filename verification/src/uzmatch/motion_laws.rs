//! What holds of the motion that is rendered between fixes.
//!
//! The laws are shown for motions in which no zero has a sign, and hold of all others since
//! the sign of a zero never shows but in other zeros.
use vstd::arithmetic::power2::{lemma_pow2_pos, pow2};
use vstd::prelude::*;

use crate::arithmetic::{lemma_nearest_zero, lemma_units_grow, signed_units, PLACES};
use crate::binary64::{number, Binary64, FRACTION_SPAN, ONE, THREE, ZERO};
use crate::rounding::units;
use crate::rounding_bounds::{at_most_but_for_rounding, LARGE};
use crate::uzmatch::motion::{
    at_rest, control_time, distance_curve, first_reaching, is_possible, motion_points, point_at,
    sample, sample_position, samples, time_curve, CubicBezierCurve, MotionPoint,
    PATH_CURVATURE, PATH_POINT_NUMBER, SIX,
};
use crate::uzmatch::motion_bounds::{
    law_samples_never_go_back, leads_unsigned, lemma_motion_covers_its_distance,
    lemma_motion_ends_at_its_distance, lemma_motion_never_goes_back, lemma_motion_starts_at_zero,
    lemma_points_lead_to_the_ends,
};
use crate::uzmatch::motion_ends::{lemma_motion_has_its_speeds, NEAREST};
use crate::uzmatch::motion_speeds::{is_ordinary, lemma_motion_speed_is_never_negative};

verus! {

/// Whether a number is finite and not below zero.
pub open spec fn is_amount(x: Binary64) -> bool {
    x.is_finite() && number(ZERO).at_most(x)
}

/// Whether a motion leads forward: its duration is more than nothing, and neither that
/// nor its speeds nor its distance are below zero or infinite.
pub open spec fn leads_forward(
    initial_speed: Binary64,
    final_speed: Binary64,
    duration: Binary64,
    distance: Binary64,
) -> bool {
    &&& number(ZERO).less(duration)
    &&& is_amount(duration)
    &&& is_amount(distance)
    &&& is_amount(initial_speed)
    &&& is_amount(final_speed)
}

/// Whether two numbers are the same but for the sign of a zero.
spec fn same(a: Binary64, b: Binary64) -> bool {
    a == b || (a.is_zero() && b.is_zero())
}

/// Sums and differences of the same numbers are the same.
proof fn lemma_same_sum(a: Binary64, b: Binary64, c: Binary64, d: Binary64)
    requires
        same(a, b),
        same(c, d),
    ensures
        same(a.plus(c), b.plus(d)),
        same(a.minus(c), b.minus(d)),
{
    reveal(Binary64::spec_plus);
    assert(units(0) == 0) by {
        assert(0 * pow2(0) == 0);
    }
}

/// Products of the same numbers are the same.
proof fn lemma_same_product(a: Binary64, b: Binary64, c: Binary64, d: Binary64)
    requires
        same(a, b),
        same(c, d),
    ensures
        same(a.times(c), b.times(d)),
{
    reveal(Binary64::spec_times);
    lemma_pow2_pos(PLACES as nat);
    lemma_nearest_zero(pow2(PLACES as nat));
    assert(units(0) == 0) by {
        assert(0 * pow2(0) == 0);
    }
    assert(0 * units(c.magnitude()) == 0);
    assert(0 * units(d.magnitude()) == 0);
    assert(units(a.magnitude()) * 0 == 0);
    assert(units(b.magnitude()) * 0 == 0);
}

/// Quotients of the same numbers are the same, unless by zero.
proof fn lemma_same_quotient(a: Binary64, b: Binary64, c: Binary64, d: Binary64)
    requires
        same(a, b),
        same(c, d),
        !c.is_zero(),
    ensures
        same(a.over(c), b.over(d)),
{
    reveal(Binary64::spec_over);
    assert(units(0) == 0) by {
        assert(0 * pow2(0) == 0);
    }
    assert(0 * pow2(PLACES as nat) == 0);
    if c.is_finite() {
        lemma_units_grow(0, c.magnitude());
        lemma_nearest_zero(units(c.magnitude()));
    }
}

/// Whether two curves have the same points.
spec fn same_curve(a: CubicBezierCurve, b: CubicBezierCurve) -> bool {
    &&& same(a.start, b.start)
    &&& same(a.start_control, b.start_control)
    &&& same(a.finish_control, b.finish_control)
    &&& same(a.finish, b.finish)
}

/// Whether two points of motions are the same.
spec fn same_point(a: MotionPoint, b: MotionPoint) -> bool {
    &&& same(a.time, b.time)
    &&& same(a.distance, b.distance)
    &&& same(a.speed, b.speed)
}

/// Whether two motions have the same points.
spec fn same_points(a: Seq<MotionPoint>, b: Seq<MotionPoint>) -> bool {
    &&& a.len() == b.len()
    &&& forall|i: int| 0 <= i < a.len() ==> same_point(#[trigger] a[i], #[trigger] b[i])
}

/// The same curves lead through the same numbers.
proof fn lemma_same_on_curve(a: CubicBezierCurve, b: CubicBezierCurve, t: Binary64)
    requires
        same_curve(a, b),
    ensures
        same(a.point(t), b.point(t)),
{
    let s = number(ONE).minus(t);
    let three = number(THREE);
    let i = s.times(s).times(s);
    let j = three.times(s).times(s).times(t);
    let k = three.times(s).times(t).times(t);
    let l = t.times(t).times(t);
    lemma_same_product(i, i, a.start, b.start);
    lemma_same_product(j, j, a.start_control, b.start_control);
    lemma_same_product(k, k, a.finish_control, b.finish_control);
    lemma_same_product(l, l, a.finish, b.finish);
    let x = i.times(a.start).plus(j.times(a.start_control));
    let y = i.times(b.start).plus(j.times(b.start_control));
    lemma_same_sum(
        i.times(a.start),
        i.times(b.start),
        j.times(a.start_control),
        j.times(b.start_control),
    );
    lemma_same_sum(x, y, k.times(a.finish_control), k.times(b.finish_control));
    lemma_same_sum(
        x.plus(k.times(a.finish_control)),
        y.plus(k.times(b.finish_control)),
        l.times(a.finish),
        l.times(b.finish),
    );
}

/// The same curves have the same slopes.
proof fn lemma_same_slope(a: CubicBezierCurve, b: CubicBezierCurve, t: Binary64)
    requires
        same_curve(a, b),
    ensures
        same(a.derivative(t), b.derivative(t)),
{
    let s = number(ONE).minus(t);
    let i = number(THREE).times(s).times(s);
    let j = number(SIX).times(s).times(t);
    let k = number(THREE).times(t).times(t);
    lemma_same_sum(a.start_control, b.start_control, a.start, b.start);
    lemma_same_sum(a.finish_control, b.finish_control, a.start_control, b.start_control);
    lemma_same_sum(a.finish, b.finish, a.finish_control, b.finish_control);
    let p = a.start_control.minus(a.start);
    let q = b.start_control.minus(b.start);
    let u = a.finish_control.minus(a.start_control);
    let v = b.finish_control.minus(b.start_control);
    let x = a.finish.minus(a.finish_control);
    let y = b.finish.minus(b.finish_control);
    lemma_same_product(i, i, p, q);
    lemma_same_product(j, j, u, v);
    lemma_same_product(k, k, x, y);
    lemma_same_sum(i.times(p), i.times(q), j.times(u), j.times(v));
    lemma_same_sum(
        i.times(p).plus(j.times(u)),
        i.times(q).plus(j.times(v)),
        k.times(x),
        k.times(y),
    );
}

/// The same curves have the same samples.
proof fn lemma_same_samples(
    times: CubicBezierCurve,
    distances: CubicBezierCurve,
    other_times: CubicBezierCurve,
    other_distances: CubicBezierCurve,
    n: nat,
)
    requires
        same_curve(times, other_times),
        same_curve(distances, other_distances),
    ensures
        same_points(samples(times, distances, n), samples(other_times, other_distances, n)),
    decreases n,
{
    if n > 0 {
        let m = (n - 1) as nat;
        lemma_same_samples(times, distances, other_times, other_distances, m);
        let known = samples(times, distances, m);
        let other = samples(other_times, other_distances, m);
        let before = if known.len() > 0 {
            known.last()
        } else {
            at_rest()
        };
        let other_before = if other.len() > 0 {
            other.last()
        } else {
            at_rest()
        };
        assert(same_point(before, other_before));
        let t = sample_position(n - 1);
        lemma_same_on_curve(times, other_times, t);
        lemma_same_on_curve(distances, other_distances, t);
        lemma_same_slope(times, other_times, t);
        lemma_same_slope(distances, other_distances, t);
        let in_time = times.derivative(t);
        let in_distance = distances.derivative(t);
        if !in_distance.equals(number(ZERO)) && number(ZERO).less(in_time) {
            lemma_same_quotient(
                in_distance,
                other_distances.derivative(t),
                in_time,
                other_times.derivative(t),
            );
        }
        assert(same_point(
            sample(times, distances, n - 1, before),
            sample(other_times, other_distances, n - 1, other_before),
        ));
    }
}

/// The same speeds, durations and distances give the same motion.
proof fn lemma_same_motion(
    initial_speed: Binary64,
    final_speed: Binary64,
    duration: Binary64,
    distance: Binary64,
    other_initial: Binary64,
    other_final: Binary64,
    other_distance: Binary64,
)
    requires
        same(initial_speed, other_initial),
        same(final_speed, other_final),
        same(distance, other_distance),
    ensures
        same_points(
            motion_points(initial_speed, final_speed, duration, distance),
            motion_points(other_initial, other_final, duration, other_distance),
        ),
{
    if is_possible(initial_speed, final_speed, duration, distance) {
        let half = duration.times(number(PATH_CURVATURE));
        lemma_same_product(initial_speed, other_initial, half, half);
        if distance.less(initial_speed.times(half)) {
            if initial_speed.is_zero() {
                lemma_zero_times(initial_speed, half);
            }
            lemma_same_quotient(distance, other_distance, initial_speed, other_initial);
        }
        let first = if distance.less(initial_speed.times(half)) {
            distance.over(initial_speed)
        } else {
            half
        };
        let other_first = if other_distance.less(other_initial.times(half)) {
            other_distance.over(other_initial)
        } else {
            half
        };
        lemma_same_product(final_speed, other_final, first, other_first);
        if distance.less(final_speed.times(first)) {
            if final_speed.is_zero() {
                lemma_zero_times(final_speed, first);
            }
            lemma_same_quotient(distance, other_distance, final_speed, other_final);
        }
        let control = control_time(initial_speed, final_speed, duration, distance);
        let other = control_time(other_initial, other_final, duration, other_distance);
        assert(same(control, other));
        lemma_same_product(control, other, initial_speed, other_initial);
        lemma_same_product(control, other, final_speed, other_final);
        lemma_same_sum(duration, duration, control, other);
        lemma_same_sum(
            distance,
            other_distance,
            control.times(final_speed).min(distance),
            other.times(other_final).min(other_distance),
        );
        lemma_same_samples(
            time_curve(control, duration),
            distance_curve(control, initial_speed, final_speed, distance),
            time_curve(other, duration),
            distance_curve(other, other_initial, other_final, other_distance),
            PATH_POINT_NUMBER as nat,
        );
    }
}

/// Zero times a number is zero or no number.
proof fn lemma_zero_times(zero: Binary64, x: Binary64)
    requires
        zero.is_zero(),
    ensures
        zero.times(x).is_zero() || zero.times(x).is_nan(),
{
    reveal(Binary64::spec_times);
    lemma_pow2_pos(PLACES as nat);
    lemma_nearest_zero(pow2(PLACES as nat));
    assert(units(0) == 0) by {
        assert(0 * pow2(0) == 0);
    }
    assert(0 * units(x.magnitude()) == 0);
}

/// Motions with the same points reach a time at the same one.
proof fn lemma_same_reaching(
    points: Seq<MotionPoint>,
    other: Seq<MotionPoint>,
    time: Binary64,
    from: nat,
)
    requires
        same_points(points, other),
    ensures
        first_reaching(points, time, from) == first_reaching(other, time, from),
    decreases points.len() - from,
{
    if from < points.len() {
        assert(same_point(points[from as int], other[from as int]));
        if !time.at_most(points[from as int].time) {
            lemma_same_reaching(points, other, time, from + 1);
        }
    }
}

/// Motions with the same points are at the same point at a time.
proof fn lemma_same_point_at(points: Seq<MotionPoint>, other: Seq<MotionPoint>, time: Binary64)
    requires
        points.len() > 0,
        same_points(points, other),
    ensures
        same_point(point_at(points, time), point_at(other, time)),
{
    lemma_same_reaching(points, other, time, 0);
    let index = first_reaching(points, time, 0) as int;
    assert(same_point(points[0], other[0]));
    if !time.is_finite() || time.less(number(ZERO)) || index == 0 {
    } else if index >= points.len() {
        let a = points.last();
        let b = other.last();
        assert(same_point(points[points.len() - 1], other[points.len() - 1]));
        lemma_same_sum(time, time, a.time, b.time);
        lemma_same_product(time.minus(a.time), time.minus(b.time), a.speed, b.speed);
        lemma_same_sum(
            a.distance,
            b.distance,
            time.minus(a.time).times(a.speed),
            time.minus(b.time).times(b.speed),
        );
    } else {
        let a = points[index - 1];
        let b = other[index - 1];
        let c = points[index];
        let d = other[index];
        assert(same_point(a, b));
        assert(same_point(c, d));
        lemma_same_sum(c.time, d.time, a.time, b.time);
        lemma_same_sum(time, time, a.time, b.time);
        let span = c.time.minus(a.time);
        let other_span = d.time.minus(b.time);
        if number(ZERO).less(span) {
            lemma_same_quotient(time.minus(a.time), time.minus(b.time), span, other_span);
        }
        let factor = if number(ZERO).less(span) {
            time.minus(a.time).over(span)
        } else {
            number(ZERO)
        };
        let other_factor = if number(ZERO).less(other_span) {
            time.minus(b.time).over(other_span)
        } else {
            number(ZERO)
        };
        lemma_same_sum(c.distance, d.distance, a.distance, b.distance);
        lemma_same_product(
            c.distance.minus(a.distance),
            d.distance.minus(b.distance),
            factor,
            other_factor,
        );
        lemma_same_sum(
            a.distance,
            b.distance,
            c.distance.minus(a.distance).times(factor),
            d.distance.minus(b.distance).times(other_factor),
        );
        lemma_same_sum(c.speed, d.speed, a.speed, b.speed);
        lemma_same_product(
            c.speed.minus(a.speed),
            d.speed.minus(b.speed),
            factor,
            other_factor,
        );
        lemma_same_sum(
            a.speed,
            b.speed,
            c.speed.minus(a.speed).times(factor),
            d.speed.minus(b.speed).times(other_factor),
        );
    }
}

/// A number without the sign of a zero.
spec fn unsigned(x: Binary64) -> Binary64 {
    if x.is_zero() {
        number(ZERO)
    } else {
        x
    }
}

/// The motion without the signs of zeros.
spec fn unsigned_points(
    initial_speed: Binary64,
    final_speed: Binary64,
    duration: Binary64,
    distance: Binary64,
) -> Seq<MotionPoint> {
    motion_points(unsigned(initial_speed), unsigned(final_speed), duration, unsigned(distance))
}

/// A motion that leads forward has the same points as the one without the signs of zeros.
proof fn lemma_unsigned(
    initial_speed: Binary64,
    final_speed: Binary64,
    duration: Binary64,
    distance: Binary64,
)
    requires
        leads_forward(initial_speed, final_speed, duration, distance),
    ensures
        leads_unsigned(
            unsigned(initial_speed),
            unsigned(final_speed),
            duration,
            unsigned(distance),
        ),
        same_points(
            motion_points(initial_speed, final_speed, duration, distance),
            unsigned_points(initial_speed, final_speed, duration, distance),
        ),
        motion_points(initial_speed, final_speed, duration, distance).len() == PATH_POINT_NUMBER,
{
    lemma_same_motion(
        initial_speed,
        final_speed,
        duration,
        distance,
        unsigned(initial_speed),
        unsigned(final_speed),
        unsigned(distance),
    );
    let control = control_time(initial_speed, final_speed, duration, distance);
    law_samples_never_go_back(
        time_curve(control, duration),
        distance_curve(control, initial_speed, final_speed, distance),
        PATH_POINT_NUMBER as nat,
    );
}

/// A motion that leads forward covers exactly its distance in exactly its duration: its
/// last point is at both ends.
pub proof fn law_motion_covers_its_distance(
    initial_speed: Binary64,
    final_speed: Binary64,
    duration: Binary64,
    distance: Binary64,
)
    requires
        leads_forward(initial_speed, final_speed, duration, distance),
    ensures
        motion_points(initial_speed, final_speed, duration, distance).last().time.equals(duration),
        motion_points(initial_speed, final_speed, duration, distance).last().distance.equals(
            distance,
        ),
{
    lemma_unsigned(initial_speed, final_speed, duration, distance);
    lemma_motion_covers_its_distance(
        unsigned(initial_speed),
        unsigned(final_speed),
        duration,
        unsigned(distance),
    );
    let points = motion_points(initial_speed, final_speed, duration, distance);
    let other = unsigned_points(initial_speed, final_speed, duration, distance);
    assert(same_point(points[points.len() - 1], other[points.len() - 1]));
}

/// A motion that leads forward starts at no distance.
pub proof fn law_motion_starts_at_zero(
    initial_speed: Binary64,
    final_speed: Binary64,
    duration: Binary64,
    distance: Binary64,
)
    requires
        leads_forward(initial_speed, final_speed, duration, distance),
    ensures
        point_at(
            motion_points(initial_speed, final_speed, duration, distance),
            number(ZERO),
        ).distance.is_zero(),
{
    lemma_unsigned(initial_speed, final_speed, duration, distance);
    lemma_motion_starts_at_zero(
        unsigned(initial_speed),
        unsigned(final_speed),
        duration,
        unsigned(distance),
    );
    lemma_same_point_at(
        motion_points(initial_speed, final_speed, duration, distance),
        unsigned_points(initial_speed, final_speed, duration, distance),
        number(ZERO),
    );
}

/// Within the duration of a motion that leads forward, the distance never goes back as the
/// time goes on, and never beyond the end, but for rounding: by at most the whole distance
/// over two to the power 51.
pub proof fn law_motion_never_goes_back(
    initial_speed: Binary64,
    final_speed: Binary64,
    duration: Binary64,
    distance: Binary64,
    time: Binary64,
    later: Binary64,
)
    requires
        leads_forward(initial_speed, final_speed, duration, distance),
        distance.at_most(number(LARGE)),
        number(ZERO).at_most(time),
        time.at_most(later),
        later.at_most(duration),
    ensures
        ({
            let points = motion_points(initial_speed, final_speed, duration, distance);
            let here = point_at(points, time).distance;
            let there = point_at(points, later).distance;
            &&& is_amount(here)
            &&& is_amount(there)
            &&& at_most_but_for_rounding(here, there, distance)
            &&& at_most_but_for_rounding(here, distance, distance)
            &&& at_most_but_for_rounding(there, distance, distance)
        }),
{
    let points = motion_points(initial_speed, final_speed, duration, distance);
    let other = unsigned_points(initial_speed, final_speed, duration, distance);
    lemma_unsigned(initial_speed, final_speed, duration, distance);
    lemma_motion_never_goes_back(
        unsigned(initial_speed),
        unsigned(final_speed),
        duration,
        unsigned(distance),
        time,
        later,
    );
    lemma_same_point_at(points, other, time);
    lemma_same_point_at(points, other, later);
    lemma_units_of_zero();
}

/// A zero of either sign has no units.
proof fn lemma_units_of_zero()
    ensures
        units(0) == 0,
{
    assert(0 * pow2(0) == 0);
}

/// At the end of its duration a motion that leads forward is at its distance, but for
/// rounding: by at most the distance over two to the power 51. This leaves out durations
/// below two to the power -1022, in which the samples' times cannot be told apart.
pub proof fn law_motion_ends_at_its_distance(
    initial_speed: Binary64,
    final_speed: Binary64,
    duration: Binary64,
    distance: Binary64,
)
    requires
        leads_forward(initial_speed, final_speed, duration, distance),
        distance.at_most(number(LARGE)),
        number(FRACTION_SPAN).at_most(duration),
        duration.at_most(number(LARGE)),
    ensures
        ({
            let points = motion_points(initial_speed, final_speed, duration, distance);
            let end = point_at(points, duration).distance;
            &&& is_amount(end)
            &&& at_most_but_for_rounding(end, distance, distance)
            &&& at_most_but_for_rounding(distance, end, distance)
        }),
{
    let points = motion_points(initial_speed, final_speed, duration, distance);
    let other = unsigned_points(initial_speed, final_speed, duration, distance);
    lemma_unsigned(initial_speed, final_speed, duration, distance);
    lemma_motion_ends_at_its_distance(
        unsigned(initial_speed),
        unsigned(final_speed),
        duration,
        unsigned(distance),
    );
    lemma_same_point_at(points, other, duration);
    lemma_units_of_zero();
}

/// Within the duration of a motion that leads forward by what a vehicle can do, the speed is
/// finite and never below zero.
pub proof fn law_motion_speed_is_never_negative(
    initial_speed: Binary64,
    final_speed: Binary64,
    duration: Binary64,
    distance: Binary64,
    time: Binary64,
)
    requires
        leads_forward(initial_speed, final_speed, duration, distance),
        is_ordinary(initial_speed, final_speed, duration, distance),
        number(ZERO).at_most(time),
        time.at_most(duration),
    ensures
        is_amount(
            point_at(
                motion_points(initial_speed, final_speed, duration, distance),
                time,
            ).speed,
        ),
{
    lemma_unsigned(initial_speed, final_speed, duration, distance);
    lemma_motion_speed_is_never_negative(
        unsigned(initial_speed),
        unsigned(final_speed),
        duration,
        unsigned(distance),
        time,
    );
    lemma_same_point_at(
        motion_points(initial_speed, final_speed, duration, distance),
        unsigned_points(initial_speed, final_speed, duration, distance),
        time,
    );
}

/// Whether a speed is told to within a 128th of a metre per second.
pub open spec fn is_about(told: Binary64, speed: Binary64) -> bool {
    &&& told.is_finite()
    &&& -(pow2(1074) as int) <= (signed_units(told) - signed_units(speed)) * 0x80 <= pow2(1074)
}

/// A point after every sample is reached by none.
proof fn lemma_reached_by_none(points: Seq<MotionPoint>, time: Binary64, from: nat)
    requires
        from <= points.len(),
        forall|i: int| 0 <= i < points.len() ==> !time.at_most((#[trigger] points[i]).time),
    ensures
        first_reaching(points, time, from) == points.len(),
    decreases points.len() - from,
{
    if from < points.len() {
        assert(!time.at_most(points[from as int].time));
        lemma_reached_by_none(points, time, from + 1);
    }
}

/// A motion of some way that a vehicle can make starts with the one speed and ends with the
/// other, to within a 128th of a metre per second. At its start it is at its first point, and
/// after its duration it goes on with the speed at its end.
pub proof fn law_motion_starts_and_ends_with_its_speeds(
    initial_speed: Binary64,
    final_speed: Binary64,
    duration: Binary64,
    distance: Binary64,
    later: Binary64,
)
    requires
        leads_forward(initial_speed, final_speed, duration, distance),
        is_ordinary(initial_speed, final_speed, duration, distance),
        number(NEAREST).at_most(distance),
        duration.less(later),
        later.is_finite(),
    ensures
        ({
            let points = motion_points(initial_speed, final_speed, duration, distance);
            &&& is_about(point_at(points, number(ZERO)).speed, initial_speed)
            &&& is_about(points.last().speed, final_speed)
            &&& is_about(point_at(points, later).speed, final_speed)
            &&& point_at(points, later).distance == points.last().distance.plus(
                later.minus(points.last().time).times(points.last().speed),
            )
        }),
{
    let points = motion_points(initial_speed, final_speed, duration, distance);
    let other = unsigned_points(initial_speed, final_speed, duration, distance);
    lemma_unsigned(initial_speed, final_speed, duration, distance);
    lemma_motion_has_its_speeds(
        unsigned(initial_speed),
        unsigned(final_speed),
        duration,
        unsigned(distance),
    );
    lemma_points_lead_to_the_ends(
        unsigned(initial_speed),
        unsigned(final_speed),
        duration,
        unsigned(distance),
    );
    lemma_units_of_zero();
    let end = points.len() - 1;
    assert(same_point(points[0], other[0]));
    assert(same_point(points[end], other[end]));
    assert forall|i: int| 0 <= i < points.len() implies !later.at_most(
        (#[trigger] points[i]).time,
    ) by {
        assert(same_point(points[i], other[i]));
        assert(other[i].time.at_most(duration));
    }
    lemma_reached_by_none(points, later, 0);
}

} // verus!
