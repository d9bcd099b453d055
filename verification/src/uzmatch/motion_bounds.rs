//! How the points of a motion lie between its ends, where no zero has a sign.
use vstd::arithmetic::mul::lemma_mul_is_associative;
use vstd::arithmetic::power2::{lemma2_to64_rest, lemma_pow2_adds, pow2};
use vstd::prelude::*;

use crate::arithmetic::{
    law_difference_with_itself, lemma_nearest_exact, lemma_nearest_zero, lemma_signed_units_grow,
    lemma_units_grow, PLACES,
};
use crate::arithmetic_laws::{
    law_difference_is_within, law_half_is_within, law_one_is_neutral, law_quotient_is_within,
    law_quotient_with_itself, law_sum_never_shrinks, law_zero_absorbs, law_zero_is_neutral,
};
use crate::binary64::{number, Binary64, FRACTION_SPAN, ONE, THREE, ZERO};
use crate::rounding::units;
use crate::rounding_bounds::{
    at_most_but_for_rounding, law_difference_is_above_zero, law_difference_keeps_order,
    law_fraction_is_within, law_part_is_a_fraction, law_product_keeps_order,
    law_quotient_keeps_order, law_sum_keeps_order, law_sum_undoes_difference,
    lemma_integer_is_bounded, lemma_moderate_is_within, LARGE, LARGE_POWER,
};
use crate::uzmatch::curve_bounds::{lemma_position_leaves_room, lemma_time_stays_before_the_end};
use crate::uzmatch::motion::{
    at_rest, control_time, distance_curve, first_reaching, motion_points, point_at, sample,
    sample_position, samples, time_curve, CubicBezierCurve, MotionPoint, LAST_SAMPLE,
    PATH_CURVATURE, PATH_POINT_NUMBER,
};

verus! {

/// The samples of a motion never go back, in time or in distance, and never beyond
/// the end.
pub proof fn law_samples_never_go_back(
    times: CubicBezierCurve,
    distances: CubicBezierCurve,
    n: nat,
)
    requires
        !times.finish.less(number(ZERO)),
        !distances.finish.less(number(ZERO)),
    ensures
        samples(times, distances, n).len() == n,
        forall|i: int|
            0 <= i < n ==> !times.finish.less((#[trigger] samples(times, distances, n)[i]).time)
                && !distances.finish.less(samples(times, distances, n)[i].distance),
        forall|i: int, j: int|
            0 <= i && j == i + 1 && j < n ==> !(#[trigger] samples(times, distances, n)[j]).time.less(
                (#[trigger] samples(times, distances, n)[i]).time,
            ) && !samples(times, distances, n)[j].distance.less(
                samples(times, distances, n)[i].distance,
            ),
    decreases n,
{
    if n > 0 {
        law_samples_never_go_back(times, distances, (n - 1) as nat);
        let known = samples(times, distances, (n - 1) as nat);
        assert forall|i: int| 0 <= i < n implies !times.finish.less(
            (#[trigger] samples(times, distances, n)[i]).time,
        ) && !distances.finish.less(samples(times, distances, n)[i].distance) by {
            if i < n - 1 {
                assert(samples(times, distances, n)[i] == known[i]);
            }
        }
        assert forall|i: int, j: int| 0 <= i && j == i + 1 && j < n implies !(
        #[trigger] samples(times, distances, n)[j]).time.less(
            (#[trigger] samples(times, distances, n)[i]).time,
        ) && !samples(times, distances, n)[j].distance.less(
            samples(times, distances, n)[i].distance,
        ) by {
            assert(samples(times, distances, n)[i] == known[i]);
            if j < n - 1 {
                assert(samples(times, distances, n)[j] == known[j]);
            }
        }
    }
}

/// The last sample is taken at the end of the curve.
pub proof fn lemma_last_sample_position()
    ensures
        sample_position(PATH_POINT_NUMBER - 1) == number(ONE),
{
    reveal(Binary64::spec_from_integer);
    lemma2_to64_rest();
    lemma_pow2_adds(47, 1027);
    lemma_mul_is_associative(49, pow2(47) as int, pow2(1027) as int);
    lemma_nearest_exact(LAST_SAMPLE);
    law_quotient_with_itself(number(LAST_SAMPLE));
}

/// A curve from zero with finite points ends where it should.
proof fn lemma_curve_ends(curve: CubicBezierCurve)
    requires
        curve.start.is_zero(),
        curve.start_control.is_finite(),
        curve.finish_control.is_finite(),
        curve.finish.is_finite(),
    ensures
        curve.point(number(ONE)).equals(curve.finish),
{
    let t = number(ONE);
    let s = t.minus(t);
    law_difference_with_itself(t);
    law_zero_absorbs(s, s);
    law_zero_absorbs(s.times(s), s);
    law_zero_absorbs(s.times(s).times(s), curve.start);
    let first = s.times(s).times(s).times(curve.start);
    law_zero_absorbs(s, number(THREE));
    let lead = number(THREE).times(s);
    law_zero_absorbs(lead, s);
    law_zero_absorbs(lead.times(s), t);
    law_zero_absorbs(lead.times(s).times(t), curve.start_control);
    let second = lead.times(s).times(t).times(curve.start_control);
    law_zero_absorbs(lead, t);
    law_zero_absorbs(lead.times(t), t);
    law_zero_absorbs(lead.times(t).times(t), curve.finish_control);
    let third = lead.times(t).times(t).times(curve.finish_control);
    law_one_is_neutral(t);
    law_one_is_neutral(curve.finish);
    law_zero_is_neutral(first, second);
    law_zero_is_neutral(first.plus(second), third);
    law_zero_is_neutral(first.plus(second).plus(third), curve.finish);
}

/// What is held below a finite number that is not negative is finite too.
proof fn lemma_held_below(x: Binary64, limit: Binary64)
    requires
        !x.is_negative(),
        limit.is_finite(),
        !limit.is_negative(),
    ensures
        x.min(limit).is_finite(),
        !x.min(limit).is_negative(),
        x.min(limit).at_most(limit),
{
}

/// A product of numbers that are not negative is not negative.
proof fn lemma_product_sign(a: Binary64, b: Binary64)
    requires
        !a.is_negative(),
        !b.is_negative(),
    ensures
        !a.times(b).is_negative(),
{
    reveal(Binary64::spec_times);
}

/// Whether a number is finite and has no sign.
pub open spec fn is_unsigned(x: Binary64) -> bool {
    x.is_finite() && !x.is_negative()
}

/// Whether a motion leads forward, and neither its duration nor its speeds nor its distance
/// have a sign.
pub open spec fn leads_unsigned(
    initial_speed: Binary64,
    final_speed: Binary64,
    duration: Binary64,
    distance: Binary64,
) -> bool {
    &&& number(ZERO).less(duration)
    &&& is_unsigned(duration)
    &&& is_unsigned(distance)
    &&& is_unsigned(initial_speed)
    &&& is_unsigned(final_speed)
}

/// Whether a curve starts at zero and has its control points before its end.
pub open spec fn runs_ahead(curve: CubicBezierCurve) -> bool {
    &&& curve.start == number(ZERO)
    &&& is_unsigned(curve.start_control)
    &&& is_unsigned(curve.finish_control)
    &&& is_unsigned(curve.finish)
    &&& curve.start_control.at_most(curve.finish)
    &&& curve.finish_control.at_most(curve.finish)
}

/// The curves of a motion that leads forward run ahead, and the control points lie no
/// later than half the duration.
pub proof fn lemma_curves_run_ahead(
    initial_speed: Binary64,
    final_speed: Binary64,
    duration: Binary64,
    distance: Binary64,
)
    requires
        leads_unsigned(initial_speed, final_speed, duration, distance),
    ensures
        ({
            let control = control_time(initial_speed, final_speed, duration, distance);
            &&& is_unsigned(control)
            &&& control.at_most(duration.times(number(PATH_CURVATURE)))
            &&& runs_ahead(time_curve(control, duration))
            &&& runs_ahead(distance_curve(control, initial_speed, final_speed, distance))
        }),
{
    let control = control_time(initial_speed, final_speed, duration, distance);
    let half = duration.times(number(PATH_CURVATURE));
    law_half_is_within(duration);
    let first = if distance.less(initial_speed.times(half)) {
        distance.over(initial_speed)
    } else {
        half
    };
    if distance.less(initial_speed.times(half)) {
        law_quotient_is_within(distance, initial_speed, half);
    }
    if distance.less(final_speed.times(first)) {
        law_quotient_is_within(distance, final_speed, first);
    }
    law_difference_is_within(duration, control);
    lemma_product_sign(control, initial_speed);
    lemma_product_sign(control, final_speed);
    lemma_held_below(control.times(initial_speed), distance);
    lemma_held_below(control.times(final_speed), distance);
    law_difference_is_within(distance, control.times(final_speed).min(distance));
}

/// A motion that leads forward covers exactly its distance in exactly its duration: its
/// last point is at both ends.
pub proof fn lemma_motion_covers_its_distance(
    initial_speed: Binary64,
    final_speed: Binary64,
    duration: Binary64,
    distance: Binary64,
)
    requires
        leads_unsigned(initial_speed, final_speed, duration, distance),
    ensures
        motion_points(initial_speed, final_speed, duration, distance).last().time.equals(duration),
        motion_points(initial_speed, final_speed, duration, distance).last().distance.equals(
            distance,
        ),
{
    let control = control_time(initial_speed, final_speed, duration, distance);
    lemma_curves_run_ahead(initial_speed, final_speed, duration, distance);
    let times = time_curve(control, duration);
    let distances = distance_curve(control, initial_speed, final_speed, distance);
    lemma_curve_ends(times);
    lemma_curve_ends(distances);
    lemma_last_sample_position();
    law_samples_never_go_back(times, distances, (PATH_POINT_NUMBER - 1) as nat);
    let known = samples(times, distances, (PATH_POINT_NUMBER - 1) as nat);
    assert(samples(times, distances, PATH_POINT_NUMBER as nat) == known.push(
        sample(times, distances, PATH_POINT_NUMBER - 1, known.last()),
    ));
    assert(!times.finish.less(known[PATH_POINT_NUMBER - 2].time));
}

/// A sample is taken between zero and one.
pub proof fn lemma_sample_position(index: int)
    ensures
        is_unsigned(sample_position(index)),
        sample_position(index).at_most(number(ONE)),
{
    let n = Binary64::from_integer(index as u128);
    lemma_integer_is_bounded(index as u128);
    reveal(Binary64::spec_over);
    assert(!n.over(number(LAST_SAMPLE)).is_negative());
    lemma_held_below(n.over(number(LAST_SAMPLE)), number(ONE));
}

/// A product of amounts is a number that is not negative.
proof fn lemma_amounts_product(a: Binary64, b: Binary64)
    requires
        is_unsigned(a),
        is_unsigned(b),
    ensures
        !a.times(b).is_nan(),
        !a.times(b).is_negative(),
{
    reveal(Binary64::spec_times);
}

/// A curve that runs ahead is nowhere negative.
proof fn lemma_curve_is_not_negative(curve: CubicBezierCurve, position: Binary64)
    requires
        runs_ahead(curve),
        is_unsigned(position),
        position.at_most(number(ONE)),
    ensures
        !curve.point(position).is_nan(),
        !curve.point(position).is_negative(),
{
    let t = position;
    let s = number(ONE).minus(t);
    let three = number(THREE);
    law_difference_is_within(number(ONE), t);
    law_fraction_is_within(s, s);
    law_fraction_is_within(s.times(s), s);
    lemma_amounts_product(s.times(s).times(s), curve.start);
    let a = s.times(s).times(s).times(curve.start);
    law_fraction_is_within(three, s);
    law_fraction_is_within(three.times(s), s);
    law_fraction_is_within(three.times(s).times(s), t);
    lemma_amounts_product(three.times(s).times(s).times(t), curve.start_control);
    let b = three.times(s).times(s).times(t).times(curve.start_control);
    law_fraction_is_within(three.times(s), t);
    law_fraction_is_within(three.times(s).times(t), t);
    lemma_amounts_product(three.times(s).times(t).times(t), curve.finish_control);
    let c = three.times(s).times(t).times(t).times(curve.finish_control);
    law_fraction_is_within(t, t);
    law_fraction_is_within(t.times(t), t);
    lemma_amounts_product(t.times(t).times(t), curve.finish);
    let d = t.times(t).times(t).times(curve.finish);
    law_sum_never_shrinks(a, b);
    law_sum_never_shrinks(a.plus(b), c);
    law_sum_never_shrinks(a.plus(b).plus(c), d);
}

/// Whether points are amounts of time and distance up to the ends, and never go back.
pub open spec fn never_go_back(
    points: Seq<MotionPoint>,
    duration: Binary64,
    distance: Binary64,
) -> bool {
    &&& forall|i: int|
        0 <= i < points.len() ==> {
            &&& is_unsigned((#[trigger] points[i]).time)
            &&& is_unsigned(points[i].distance)
            &&& points[i].time.at_most(duration)
            &&& points[i].distance.at_most(distance)
        }
    &&& forall|i: int, j: int|
        0 <= i <= j < points.len() ==> {
            &&& (#[trigger] points[i]).time.at_most((#[trigger] points[j]).time)
            &&& points[i].distance.at_most(points[j].distance)
        }
}

/// The samples of curves that run ahead never go back.
proof fn lemma_samples_never_go_back(
    times: CubicBezierCurve,
    distances: CubicBezierCurve,
    n: nat,
)
    requires
        runs_ahead(times),
        runs_ahead(distances),
    ensures
        samples(times, distances, n).len() == n,
        never_go_back(samples(times, distances, n), times.finish, distances.finish),
    decreases n,
{
    if n > 0 {
        let known = samples(times, distances, (n - 1) as nat);
        lemma_samples_never_go_back(times, distances, (n - 1) as nat);
        let position = sample_position(n - 1);
        lemma_sample_position(n - 1);
        lemma_curve_is_not_negative(times, position);
        lemma_curve_is_not_negative(distances, position);
        let before = if known.len() > 0 {
            known.last()
        } else {
            at_rest()
        };
        let new = sample(times, distances, n - 1, before);
        assert(is_unsigned(before.time) && is_unsigned(before.distance) && before.time.at_most(
            times.finish,
        ) && before.distance.at_most(distances.finish));
        assert(is_unsigned(new.time) && is_unsigned(new.distance));
        let points = samples(times, distances, n);
        assert forall|i: int, j: int| 0 <= i <= j < points.len() implies {
            &&& (#[trigger] points[i]).time.at_most((#[trigger] points[j]).time)
            &&& points[i].distance.at_most(points[j].distance)
        } by {
            if j == n - 1 && i < n - 1 {
                assert(known[i].time.at_most(known[n - 2].time));
                assert(known[i].distance.at_most(known[n - 2].distance));
            } else if j < n - 1 {
                assert(known[i].time.at_most(known[j].time));
                assert(known[i].distance.at_most(known[j].distance));
            }
        }
    }
}

/// The first point that is not before a time is not before it, and those in front of it
/// are.
pub proof fn lemma_first_reaching(points: Seq<MotionPoint>, time: Binary64, from: nat)
    requires
        from <= points.len(),
    ensures
        ({
            let index = first_reaching(points, time, from);
            &&& from <= index <= points.len()
            &&& index < points.len() ==> time.at_most(points[index as int].time)
            &&& forall|i: int|
                from <= i < index ==> !time.at_most((#[trigger] points[i]).time)
        }),
    decreases points.len() - from,
{
    if from < points.len() && !time.at_most(points[from as int].time) {
        lemma_first_reaching(points, time, from + 1);
    }
}

/// How far a time lies between two others.
pub open spec fn share(previous: Binary64, time: Binary64, next: Binary64) -> Binary64 {
    time.minus(previous).over(next.minus(previous))
}

/// A time between two others lies between none and all of the way from one to the other.
proof fn lemma_share(previous: Binary64, time: Binary64, next: Binary64)
    requires
        is_unsigned(previous),
        is_unsigned(next),
        previous.less(time),
        time.at_most(next),
    ensures
        number(ZERO).less(next.minus(previous)),
        is_unsigned(next.minus(previous)),
        is_unsigned(share(previous, time, next)),
        share(previous, time, next).at_most(number(ONE)),
{
    law_difference_is_within(next, previous);
    law_difference_is_within(time, previous);
    law_difference_is_above_zero(next, previous);
    law_difference_keeps_order(time, next, previous);
    law_part_is_a_fraction(time.minus(previous), next.minus(previous));
}

/// A later time lies farther.
proof fn lemma_share_grows(
    previous: Binary64,
    time: Binary64,
    later: Binary64,
    next: Binary64,
)
    requires
        is_unsigned(previous),
        is_unsigned(next),
        previous.less(time),
        time.at_most(later),
        later.at_most(next),
    ensures
        share(previous, time, next).at_most(share(previous, later, next)),
{
    lemma_share(previous, time, next);
    law_difference_is_within(time, previous);
    law_difference_is_within(later, previous);
    law_difference_keeps_order(time, later, previous);
    law_quotient_keeps_order(
        time.minus(previous),
        later.minus(previous),
        next.minus(previous),
    );
}

/// What lies between two amounts at a share of the way.
pub open spec fn between(previous: Binary64, next: Binary64, share: Binary64) -> Binary64 {
    previous.plus(next.minus(previous).times(share))
}

/// What lies between two amounts is not below the first, and not above the second but
/// for rounding.
proof fn lemma_between(previous: Binary64, next: Binary64, share: Binary64)
    requires
        is_unsigned(previous),
        is_unsigned(next),
        previous.at_most(next),
        next.at_most(number(LARGE)),
        is_unsigned(share),
        share.at_most(number(ONE)),
    ensures
        is_unsigned(between(previous, next, share)),
        previous.at_most(between(previous, next, share)),
        at_most_but_for_rounding(between(previous, next, share), next, next),
{
    let whole = next.minus(previous);
    let part = whole.times(share);
    lemma_moderate_is_within(next);
    law_difference_is_within(next, previous);
    law_fraction_is_within(whole, share);
    law_sum_undoes_difference(previous, next, LARGE_POWER as nat);
    law_sum_keeps_order(part, whole, previous);
    law_sum_never_shrinks(previous, part);
    lemma_signed_units_grow(previous.plus(part), previous.plus(whole));
}

/// What lies between two amounts grows with the share.
proof fn lemma_between_grows(
    previous: Binary64,
    next: Binary64,
    share: Binary64,
    greater: Binary64,
)
    requires
        is_unsigned(previous),
        is_unsigned(next),
        previous.at_most(next),
        is_unsigned(share),
        is_unsigned(greater),
        share.at_most(greater),
        greater.at_most(number(ONE)),
    ensures
        between(previous, next, share).at_most(between(previous, next, greater)),
{
    let whole = next.minus(previous);
    law_difference_is_within(next, previous);
    law_fraction_is_within(whole, share);
    law_fraction_is_within(whole, greater);
    law_product_keeps_order(share, greater, whole);
    law_sum_keeps_order(whole.times(share), whole.times(greater), previous);
}

/// Whether points lead from rest to the ends without going back.
pub open spec fn leads_to_the_ends(
    points: Seq<MotionPoint>,
    duration: Binary64,
    distance: Binary64,
) -> bool {
    &&& points.len() == PATH_POINT_NUMBER
    &&& never_go_back(points, duration, distance)
    &&& points.last().time.equals(duration)
    &&& points.last().distance.equals(distance)
}

/// The points of a motion that leads forward lead to its ends.
pub proof fn lemma_points_lead_to_the_ends(
    initial_speed: Binary64,
    final_speed: Binary64,
    duration: Binary64,
    distance: Binary64,
)
    requires
        leads_unsigned(initial_speed, final_speed, duration, distance),
    ensures
        leads_to_the_ends(
            motion_points(initial_speed, final_speed, duration, distance),
            duration,
            distance,
        ),
{
    let control = control_time(initial_speed, final_speed, duration, distance);
    lemma_curves_run_ahead(initial_speed, final_speed, duration, distance);
    lemma_motion_covers_its_distance(initial_speed, final_speed, duration, distance);
    lemma_samples_never_go_back(
        time_curve(control, duration),
        distance_curve(control, initial_speed, final_speed, distance),
        PATH_POINT_NUMBER as nat,
    );
}

/// Within the duration a point lies at a share of the way between two samples, or is the
/// first one.
pub proof fn lemma_point_within(
    points: Seq<MotionPoint>,
    duration: Binary64,
    distance: Binary64,
    time: Binary64,
)
    requires
        leads_to_the_ends(points, duration, distance),
        duration.is_finite(),
        number(ZERO).at_most(time),
        time.at_most(duration),
    ensures
        ({
            let index = first_reaching(points, time, 0) as int;
            &&& 0 <= index < points.len()
            &&& index == 0 ==> point_at(points, time) == points[0]
            &&& index > 0 ==> {
                let previous = points[index - 1];
                let next = points[index];
                let part = share(previous.time, time, next.time);
                &&& previous.time.less(time)
                &&& time.at_most(next.time)
                &&& is_unsigned(part)
                &&& part.at_most(number(ONE))
                &&& point_at(points, time).distance == between(
                    previous.distance,
                    next.distance,
                    part,
                )
                &&& point_at(points, time).speed == between(previous.speed, next.speed, part)
            }
        }),
{
    lemma_first_reaching(points, time, 0);
    let index = first_reaching(points, time, 0) as int;
    assert(time.at_most(points[PATH_POINT_NUMBER - 1].time));
    if index > 0 {
        assert(!time.at_most(points[index - 1].time));
        lemma_share(points[index - 1].time, time, points[index].time);
    }
}

/// Within the duration of a motion that leads forward, the distance never goes back as the
/// time goes on, and never beyond the end, but for rounding: by at most the whole distance
/// over two to the power 51.
pub proof fn lemma_motion_never_goes_back(
    initial_speed: Binary64,
    final_speed: Binary64,
    duration: Binary64,
    distance: Binary64,
    time: Binary64,
    later: Binary64,
)
    requires
        leads_unsigned(initial_speed, final_speed, duration, distance),
        distance.at_most(number(LARGE)),
        number(ZERO).at_most(time),
        time.at_most(later),
        later.at_most(duration),
    ensures
        ({
            let points = motion_points(initial_speed, final_speed, duration, distance);
            let here = point_at(points, time).distance;
            let there = point_at(points, later).distance;
            &&& is_unsigned(here)
            &&& is_unsigned(there)
            &&& at_most_but_for_rounding(here, there, distance)
            &&& at_most_but_for_rounding(here, distance, distance)
            &&& at_most_but_for_rounding(there, distance, distance)
        }),
{
    let points = motion_points(initial_speed, final_speed, duration, distance);
    lemma_points_lead_to_the_ends(initial_speed, final_speed, duration, distance);
    lemma_point_within(points, duration, distance, time);
    lemma_point_within(points, duration, distance, later);
    lemma_distance_within(points, duration, distance, time);
    lemma_distance_within(points, duration, distance, later);
    let i = first_reaching(points, time, 0) as int;
    let j = first_reaching(points, later, 0) as int;
    let here = point_at(points, time).distance;
    let there = point_at(points, later).distance;
    lemma_first_reaching(points, time, 0);
    lemma_first_reaching(points, later, 0);
    if j < i {
        assert(!time.at_most(points[j].time));
    }
    if i == j {
        if i > 0 {
            let previous = points[i - 1];
            let next = points[i];
            lemma_share_grows(previous.time, time, later, next.time);
            lemma_between_grows(
                previous.distance,
                next.distance,
                share(previous.time, time, next.time),
                share(previous.time, later, next.time),
            );
        }
        lemma_signed_units_grow(here, there);
    } else {
        assert(points[i].distance.at_most(points[j - 1].distance));
        lemma_signed_units_grow(points[i].distance, there);
        lemma_signed_units_grow(points[i].distance, distance);
    }
}

/// A point within the duration is not before the sample in front of it, and not beyond the
/// one behind it but for rounding.
proof fn lemma_distance_within(
    points: Seq<MotionPoint>,
    duration: Binary64,
    distance: Binary64,
    time: Binary64,
)
    requires
        leads_to_the_ends(points, duration, distance),
        duration.is_finite(),
        is_unsigned(distance),
        distance.at_most(number(LARGE)),
        number(ZERO).at_most(time),
        time.at_most(duration),
    ensures
        ({
            let index = first_reaching(points, time, 0) as int;
            let here = point_at(points, time).distance;
            &&& is_unsigned(here)
            &&& index > 0 ==> points[index - 1].distance.at_most(here)
            &&& at_most_but_for_rounding(here, points[index].distance, points[index].distance)
            &&& at_most_but_for_rounding(here, distance, distance)
        }),
{
    lemma_point_within(points, duration, distance, time);
    let index = first_reaching(points, time, 0) as int;
    let here = point_at(points, time).distance;
    if index > 0 {
        let previous = points[index - 1];
        let next = points[index];
        assert(previous.distance.at_most(next.distance));
        lemma_between(
            previous.distance,
            next.distance,
            share(previous.time, time, next.time),
        );
    }
    lemma_signed_units_grow(points[index].distance, distance);
}

/// The first sample is taken at the start of the curve.
pub proof fn lemma_first_sample_position()
    ensures
        sample_position(0) == number(ZERO),
{
    reveal(Binary64::spec_from_integer);
    reveal(Binary64::spec_over);
    lemma_nearest_zero(1);
    assert(0 * pow2(PLACES as nat) == 0);
    assert(units(0) == 0) by {
        assert(0 * pow2(0) == 0);
    }
    lemma_units_grow(0, LAST_SAMPLE);
    lemma_nearest_zero(units(LAST_SAMPLE));
}

/// A curve that runs ahead starts at zero.
proof fn lemma_curve_starts(curve: CubicBezierCurve)
    requires
        runs_ahead(curve),
    ensures
        curve.point(number(ZERO)).is_zero(),
{
    let t = number(ZERO);
    let s = number(ONE).minus(t);
    let three = number(THREE);
    law_difference_is_within(number(ONE), t);
    law_fraction_is_within(s, s);
    law_fraction_is_within(s.times(s), s);
    law_zero_absorbs(curve.start, s.times(s).times(s));
    let first = s.times(s).times(s).times(curve.start);
    law_fraction_is_within(three, s);
    law_fraction_is_within(three.times(s), s);
    law_zero_absorbs(t, three.times(s).times(s));
    law_zero_absorbs(three.times(s).times(s).times(t), curve.start_control);
    let second = three.times(s).times(s).times(t).times(curve.start_control);
    law_zero_absorbs(t, three.times(s));
    law_zero_absorbs(three.times(s).times(t), t);
    law_zero_absorbs(three.times(s).times(t).times(t), curve.finish_control);
    let third = three.times(s).times(t).times(t).times(curve.finish_control);
    law_zero_absorbs(t, t);
    law_zero_absorbs(t.times(t), t);
    law_zero_absorbs(t.times(t).times(t), curve.finish);
    law_zero_is_neutral(first, second);
    law_zero_is_neutral(first.plus(second), third);
    law_zero_is_neutral(first.plus(second).plus(third), t.times(t).times(t).times(curve.finish));
}

/// Each sample is the same however many are taken after it.
proof fn lemma_first_sample(times: CubicBezierCurve, distances: CubicBezierCurve, n: nat)
    requires
        n > 0,
    ensures
        samples(times, distances, n).len() == n,
        samples(times, distances, n)[0] == sample(times, distances, 0, at_rest()),
    decreases n,
{
    if n > 1 {
        lemma_first_sample(times, distances, (n - 1) as nat);
    } else {
        assert(samples(times, distances, 0).len() == 0);
    }
}

/// All samples but the last are taken before the end of the duration.
proof fn lemma_samples_before_the_end(
    control: Binary64,
    duration: Binary64,
    distances: CubicBezierCurve,
    n: nat,
)
    requires
        n < PATH_POINT_NUMBER,
        is_unsigned(control),
        control.at_most(duration),
        is_unsigned(duration),
        number(FRACTION_SPAN).at_most(duration),
        duration.at_most(number(LARGE)),
        runs_ahead(time_curve(control, duration)),
        runs_ahead(distances),
    ensures
        forall|i: int|
            0 <= i < n ==> (#[trigger] samples(
                time_curve(control, duration),
                distances,
                n,
            )[i]).time.less(duration),
    decreases n,
{
    if n > 0 {
        let times = time_curve(control, duration);
        let m = (n - 1) as nat;
        lemma_samples_before_the_end(control, duration, distances, m);
        lemma_samples_never_go_back(times, distances, m);
        lemma_samples_never_go_back(times, distances, n);
        lemma_position_leaves_room(n - 1);
        lemma_curve_is_not_negative(times, sample_position(n - 1));
        lemma_time_stays_before_the_end(control, duration, sample_position(n - 1));
        let known = samples(times, distances, m);
        assert forall|i: int| 0 <= i < n implies (#[trigger] samples(
            times,
            distances,
            n,
        )[i]).time.less(duration) by {
            if i < m {
                assert(samples(times, distances, n)[i] == known[i]);
            } else if m > 0 {
                assert(known[m - 1].time.less(duration));
            }
        }
    }
}

/// A motion that leads forward starts at no distance.
pub proof fn lemma_motion_starts_at_zero(
    initial_speed: Binary64,
    final_speed: Binary64,
    duration: Binary64,
    distance: Binary64,
)
    requires
        leads_unsigned(initial_speed, final_speed, duration, distance),
    ensures
        point_at(
            motion_points(initial_speed, final_speed, duration, distance),
            number(ZERO),
        ).distance.is_zero(),
{
    let points = motion_points(initial_speed, final_speed, duration, distance);
    let control = control_time(initial_speed, final_speed, duration, distance);
    let times = time_curve(control, duration);
    let distances = distance_curve(control, initial_speed, final_speed, distance);
    lemma_curves_run_ahead(initial_speed, final_speed, duration, distance);
    lemma_points_lead_to_the_ends(initial_speed, final_speed, duration, distance);
    lemma_first_sample(times, distances, PATH_POINT_NUMBER as nat);
    lemma_first_sample_position();
    lemma_curve_starts(distances);
    assert(is_unsigned(points[0].time));
}

/// At the end of its duration a motion that leads forward is at its distance, but for
/// rounding: by at most the distance over two to the power 51. This leaves out durations
/// below two to the power -1022, in which the samples' times cannot be told apart.
pub proof fn lemma_motion_ends_at_its_distance(
    initial_speed: Binary64,
    final_speed: Binary64,
    duration: Binary64,
    distance: Binary64,
)
    requires
        leads_unsigned(initial_speed, final_speed, duration, distance),
        distance.at_most(number(LARGE)),
        number(FRACTION_SPAN).at_most(duration),
        duration.at_most(number(LARGE)),
    ensures
        ({
            let points = motion_points(initial_speed, final_speed, duration, distance);
            let end = point_at(points, duration).distance;
            &&& is_unsigned(end)
            &&& at_most_but_for_rounding(end, distance, distance)
            &&& at_most_but_for_rounding(distance, end, distance)
        }),
{
    let points = motion_points(initial_speed, final_speed, duration, distance);
    let control = control_time(initial_speed, final_speed, duration, distance);
    let times = time_curve(control, duration);
    let distances = distance_curve(control, initial_speed, final_speed, distance);
    let last = PATH_POINT_NUMBER - 1;
    lemma_curves_run_ahead(initial_speed, final_speed, duration, distance);
    lemma_points_lead_to_the_ends(initial_speed, final_speed, duration, distance);
    lemma_samples_before_the_end(control, duration, distances, last as nat);
    let known = samples(times, distances, last as nat);
    lemma_samples_never_go_back(times, distances, last as nat);
    lemma_first_reaching(points, duration, 0);
    let index = first_reaching(points, duration, 0) as int;
    if index < last {
        assert(points[index] == known[index]);
        assert(known[index].time.less(duration));
    }
    lemma_point_within(points, duration, distance, duration);
    assert(index == last);
    let previous = points[last - 1];
    let next = points[last];
    assert(points.last() == next);
    assert(next.time == duration);
    law_difference_is_above_zero(next.time, previous.time);
    law_difference_is_within(next.time, previous.time);
    law_quotient_with_itself(next.time.minus(previous.time));
    assert(previous.distance.at_most(next.distance));
    law_difference_is_within(next.distance, previous.distance);
    law_one_is_neutral(next.distance.minus(previous.distance));
    lemma_moderate_is_within(next.distance);
    law_sum_undoes_difference(previous.distance, next.distance, LARGE_POWER as nat);
    lemma_signed_units_grow(next.distance, distance);
    lemma_signed_units_grow(distance, next.distance);
}

} // verus!
