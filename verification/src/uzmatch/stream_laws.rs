//! What holds of the stream of rendered positions, from what goes in to what comes out.
use vstd::prelude::*;

use crate::binary64::{number, Binary64};
use crate::models::UserLocation;
use crate::time::{Span, Timestamp};
use crate::uzmatch::motion::{
    advancement, control_time, distance_curve, fed, first_reaching, forgotten, goes_on,
    motion_points, moved, point_at, rendered, sample_position, samples, slope_speed, supplied,
    ticked, time_curve, vertex_distances, BoundMotion, CubicBezierCurve, MotionPoint, Stream,
};
use crate::uzmatch::motion_bounds::law_samples_never_go_back;
use crate::uzmatch::motion_ends::NEAREST;
use crate::uzmatch::motion_laws::{
    is_about, law_motion_covers_its_distance, law_motion_starts_and_ends_with_its_speeds,
    leads_forward,
};
use crate::uzmatch::motion_speeds::is_ordinary;
use crate::uzmatch::snap::{lengths_of, line_point, total_length, SegmentMeasure};

verus! {

/// The seconds from a rendered position to a fix.
pub open spec fn seconds_to(state: BoundMotion, location: UserLocation) -> Binary64 {
    Span {
        nanos: (location.timestamp.instant() - state.current_timestamp.instant()) as u128,
    }.as_seconds()
}

/// The speed of a fix; nothing where it has none.
pub open spec fn speed_of(location: UserLocation) -> Binary64 {
    match location.speed {
        Some(speed) => speed.value,
        None => number(0),
    }
}

/// Whether a fix leads a motion on: it is later by two seconds at most, and not behind the
/// rendered position nor farther ahead of it than 200 kilometres per hour lead by then.
pub open spec fn leads_on(
    state: BoundMotion,
    location: UserLocation,
    route_distance: Binary64,
) -> bool {
    let path = route_distance.minus(state.current_distance);
    let nanos = location.timestamp.instant() - state.current_timestamp.instant();
    &&& 0 < nanos <= 2_000_000_000
    &&& !path.less(number(0))
    &&& !number(0x404b_c71c_71c7_1c72).times(seconds_to(state, location)).less(path)
}

/// After a fix that leads on, the motion starts with the speed that was rendered before the
/// fix and ends with the speed of the fix, to within a 128th of a metre per second. It ends
/// at the fix when the fix was made, and past its end it goes on with the speed of the fix.
pub proof fn law_a_fix_is_reached_with_its_speed(
    state: BoundMotion,
    location: UserLocation,
    route_distance: Binary64,
    later: Binary64,
)
    requires
        leads_on(state, location, route_distance),
        ({
            let path = route_distance.minus(state.current_distance);
            let seconds = seconds_to(state, location);
            &&& leads_forward(state.point.speed, speed_of(location), seconds, path)
            &&& is_ordinary(state.point.speed, speed_of(location), seconds, path)
            &&& number(NEAREST).at_most(path)
            &&& seconds.less(later)
            &&& later.is_finite()
        }),
    ensures
        ({
            let after = supplied(state, location, route_distance);
            &&& is_about(after.point.speed, state.point.speed)
            &&& is_about(after.motion.last().speed, speed_of(location))
            &&& is_about(point_at(after.motion, later).speed, speed_of(location))
            &&& after.motion.last().time.equals(seconds_to(state, location))
            &&& after.motion.last().distance.equals(route_distance.minus(state.current_distance))
        }),
{
    let path = route_distance.minus(state.current_distance);
    let seconds = seconds_to(state, location);
    let speed = state.point.speed;
    law_motion_covers_its_distance(speed, speed_of(location), seconds, path);
    law_motion_starts_and_ends_with_its_speeds(speed, speed_of(location), seconds, path, later);
}

/// A fix ends a motion exactly where it is not later than the rendered position, lies more
/// than ten metres behind it, or is not behind it but more than two seconds later or farther
/// ahead than 200 kilometres per hour lead by then. An ended motion stays where it was.
pub proof fn law_an_unbelievable_fix_ends_the_motion(
    state: BoundMotion,
    location: UserLocation,
    route_distance: Binary64,
)
    requires
        state.available,
    ensures
        ({
            let after = supplied(state, location, route_distance);
            let path = route_distance.minus(state.current_distance);
            let nanos = location.timestamp.instant() - state.current_timestamp.instant();
            let is_behind = path.less(number(0));
            &&& !after.available <==> {
                ||| nanos <= 0
                ||| is_behind && number(0x4024_0000_0000_0000).less(path.negated())
                ||| !is_behind && nanos > 2_000_000_000
                ||| !is_behind && number(0x404b_c71c_71c7_1c72).times(
                    seconds_to(state, location),
                ).less(path)
            }
            &&& after.current_distance == state.current_distance
            &&& after.current_timestamp == state.current_timestamp
            &&& !after.available ==> after.motion == state.motion && after.point == state.point
        }),
{
}

/// A later fix at most ten metres behind the rendered position stops the motion where it is.
pub proof fn law_a_small_step_back_stops_the_motion(
    state: BoundMotion,
    location: UserLocation,
    route_distance: Binary64,
)
    requires
        state.current_timestamp.instant() < location.timestamp.instant(),
        route_distance.minus(state.current_distance).less(number(0)),
        !number(0x4024_0000_0000_0000).less(
            route_distance.minus(state.current_distance).negated(),
        ),
    ensures
        ({
            let after = supplied(state, location, route_distance);
            &&& after.available == state.available
            &&& after.motion.len() == 1
            &&& after.motion[0] == after.point
            &&& after.point.time == number(0)
            &&& after.point.distance == number(0)
            &&& after.point.speed == number(0)
        }),
{
}

/// A fix that leads on leaves the rendered position where it is, and leads from it, by the
/// speeds rendered and measured, over the way and in the time to the fix.
pub proof fn law_a_fix_leads_on(
    state: BoundMotion,
    location: UserLocation,
    route_distance: Binary64,
)
    requires
        leads_on(state, location, route_distance),
    ensures
        ({
            let after = supplied(state, location, route_distance);
            &&& after.available == state.available
            &&& after.motion == motion_points(
                state.point.speed,
                speed_of(location),
                seconds_to(state, location),
                route_distance.minus(state.current_distance),
            )
            &&& after.point == point_at(after.motion, number(0))
        }),
{
}

/// A stream without a motion, or with an ended one that the fix is later than, starts anew at
/// the fix, with its speed and no tick; an ended motion stays where the fix is not later.
pub proof fn law_a_fix_starts_the_stream(
    stream: Stream,
    location: UserLocation,
    route_distance: Binary64,
)
    ensures
        ({
            let after = fed(stream, location, route_distance);
            let runs = stream.motion is Some && stream.motion->0.available;
            let is_stale = stream.motion is Some && !stream.motion->0.available
                && location.timestamp.instant() <= stream.motion->0.current_timestamp.instant();
            &&& after.coords == stream.coords
            &&& after.cumulative == stream.cumulative
            &&& after.measures == stream.measures
            &&& is_stale ==> after == stream
            &&& runs ==> after.last_tick == stream.last_tick && after.motion == Some(
                supplied(stream.motion->0, location, route_distance),
            )
            &&& !runs && !is_stale ==> {
                &&& after.last_tick is None
                &&& after.motion is Some
                &&& after.motion->0.available
                &&& after.motion->0.current_distance == route_distance
                &&& after.motion->0.current_timestamp == location.timestamp
                &&& after.motion->0.point.time == number(0)
                &&& after.motion->0.point.distance == number(0)
                &&& after.motion->0.point.speed == speed_of(location)
                &&& after.motion->0.motion.len() == 1
                &&& after.motion->0.motion[0].time == number(0)
                &&& after.motion->0.motion[0].distance == number(0)
                &&& after.motion->0.motion[0].speed == number(0)
            }
        }),
{
}

/// A tick moves the stream on by the time since the last tick; by nothing at the first tick,
/// or at one that is not later.
pub proof fn law_a_tick_counts_from_the_last(last: Timestamp, now: Timestamp)
    ensures
        advancement(None, now).nanos == 0,
        now.instant() < last.instant() ==> advancement(Some(last), now).nanos == 0,
        last.instant() <= now.instant() ==> advancement(Some(last), now).nanos == now.instant()
            - last.instant(),
{
}

/// A running motion that moves on takes the point of its course at the later time, adds the
/// way that it gained and never less than nothing, and is as of the later instant. An ended
/// motion does not move.
pub proof fn law_a_motion_moves_on(state: BoundMotion, span: Span)
    ensures
        ({
            let after = moved(state, span);
            &&& !state.available ==> after == state
            &&& state.available ==> {
                &&& after.available
                &&& after.motion == state.motion
                &&& after.point == point_at(
                    state.motion,
                    state.point.time.plus(span.as_seconds()),
                )
                &&& after.current_timestamp == state.current_timestamp.later_by(span)
                &&& after.current_distance == state.current_distance.plus(
                    after.point.distance.minus(state.point.distance).max(number(0)),
                )
            }
        }),
{
}

/// What is rendered for a motion is the point of the line at its distance, with the direction
/// there. The speed is told while the motion goes on, and only then. Nothing is rendered
/// exactly where the line has no such point.
pub proof fn law_the_motion_is_rendered(stream: Stream, state: BoundMotion)
    ensures
        ({
            let point = line_point(
                stream.coords,
                stream.cumulative,
                stream.measures,
                state.current_distance,
            );
            let told = rendered(stream, state);
            &&& told is Some <==> point is Some
            &&& told is Some ==> {
                &&& told->0.coordinates == point->0.coordinates
                &&& told->0.course_over_ground == Some(point->0.course)
                &&& told->0.distance_along_route_meters == state.current_distance
                &&& told->0.speed_mps is Some <==> state.available
                &&& told->0.speed_mps is Some ==> told->0.speed_mps->0 == state.point.speed
            }
        }),
{
}

/// A tick more than ten seconds after the last one ends the stream, and renders nothing. Any
/// other is kept as the last one; where there is a motion it moves on and is rendered.
pub proof fn law_a_tick_moves_the_stream(stream: Stream, now: Timestamp)
    ensures
        ({
            let span = advancement(stream.last_tick, now);
            let after = ticked(stream, now).0;
            let told = ticked(stream, now).1;
            &&& after.coords == stream.coords
            &&& after.cumulative == stream.cumulative
            &&& after.measures == stream.measures
            &&& span.nanos > 10_000_000_000 ==> {
                &&& after.motion is None
                &&& after.last_tick is None
                &&& told is None
            }
            &&& span.nanos <= 10_000_000_000 ==> {
                &&& after.last_tick == Some(now)
                &&& stream.motion is None ==> after.motion is None && told is None
                &&& stream.motion is Some ==> {
                    &&& after.motion == Some(moved(stream.motion->0, span))
                    &&& told == rendered(stream, after.motion->0)
                }
            }
        }),
{
}

/// The first sample that a time does not exceed is the one reached.
proof fn lemma_reaches(points: Seq<MotionPoint>, time: Binary64, from: nat, index: nat)
    requires
        from <= index < points.len(),
        time.at_most(points[index as int].time),
        forall|i: int| 0 <= i < index ==> !time.at_most((#[trigger] points[i]).time),
    ensures
        first_reaching(points, time, from) == index,
    decreases index - from,
{
    if from < index {
        assert(!time.at_most(points[from as int].time));
        lemma_reaches(points, time, from + 1, index);
    }
}

/// Between two samples a motion is on the straight line from the one to the other, at the
/// share of the time between them; at samples of one time it is at the earlier one.
pub proof fn law_a_motion_is_straight_between_samples(
    points: Seq<MotionPoint>,
    time: Binary64,
    index: nat,
)
    requires
        0 < index < points.len(),
        time.is_finite(),
        !time.less(number(0)),
        time.at_most(points[index as int].time),
        forall|i: int| 0 <= i < index ==> !time.at_most((#[trigger] points[i]).time),
    ensures
        ({
            let before = points[index - 1];
            let next = points[index as int];
            let span = next.time.minus(before.time);
            let share = if number(0).less(span) {
                time.minus(before.time).over(span)
            } else {
                number(0)
            };
            let told = point_at(points, time);
            &&& told.time == time
            &&& told.distance == before.distance.plus(
                next.distance.minus(before.distance).times(share),
            )
            &&& told.speed == before.speed.plus(next.speed.minus(before.speed).times(share))
        }),
{
    lemma_reaches(points, time, 0, index);
}

/// A motion is at its first point up to its first sample, and where the time is below zero or
/// no finite number.
pub proof fn law_a_motion_starts_at_its_first_point(points: Seq<MotionPoint>, time: Binary64)
    requires
        points.len() > 0,
        !time.is_finite() || time.less(number(0)) || time.at_most(points[0].time),
    ensures
        point_at(points, time) == points[0],
{
}

/// The control points of a motion lie where each speed leads in the control time, from its
/// end of the motion and never beyond the other. The control time is half the duration, or
/// what either speed takes for the whole distance where that is less.
pub proof fn law_speeds_shape_the_motion(
    initial_speed: Binary64,
    final_speed: Binary64,
    duration: Binary64,
    distance: Binary64,
)
    ensures
        ({
            let half = duration.times(number(0x3fe0_0000_0000_0000));
            let control = control_time(initial_speed, final_speed, duration, distance);
            let times = time_curve(control, duration);
            let distances = distance_curve(control, initial_speed, final_speed, distance);
            let first_exceeds = distance.less(initial_speed.times(half));
            let first = if first_exceeds {
                distance.over(initial_speed)
            } else {
                half
            };
            &&& distance.less(final_speed.times(first)) ==> control == distance.over(final_speed)
            &&& !distance.less(final_speed.times(first)) ==> control == first
            &&& times.start == number(0)
            &&& times.start_control == control
            &&& times.finish_control == duration.minus(control)
            &&& times.finish == duration
            &&& distances.start == number(0)
            &&& distances.start_control == control.times(initial_speed).min(distance)
            &&& distances.finish_control == distance.minus(
                control.times(final_speed).min(distance),
            )
            &&& distances.finish == distance
        }),
{
}

/// A curve is the cubic Bezier curve of its four points, and its slope that curve's.
pub proof fn law_curves_are_cubic(curve: CubicBezierCurve, t: Binary64)
    ensures
        ({
            let s = number(0x3ff0_0000_0000_0000).minus(t);
            let three = number(0x4008_0000_0000_0000);
            let six = number(0x4018_0000_0000_0000);
            let first = curve.start_control.minus(curve.start);
            let second = curve.finish_control.minus(curve.start_control);
            let third = curve.finish.minus(curve.finish_control);
            &&& curve.point(t) == s.times(s).times(s).times(curve.start).plus(
                three.times(s).times(s).times(t).times(curve.start_control),
            ).plus(three.times(s).times(t).times(t).times(curve.finish_control)).plus(
                t.times(t).times(t).times(curve.finish),
            )
            &&& curve.derivative(t) == three.times(s).times(s).times(first).plus(
                six.times(s).times(t).times(second),
            ).plus(three.times(t).times(t).times(third))
        }),
{
}

/// The samples of a motion lie at even steps along its curve, a 49th of it apart.
pub proof fn law_samples_are_evenly_spread(index: int)
    ensures
        sample_position(index) == Binary64::from_integer(index as u128).over(
            number(0x4048_8000_0000_0000),
        ).min(number(0x3ff0_0000_0000_0000)),
{
}

/// A motion that takes no time, goes back or has no finite speeds covers nothing.
pub proof fn law_an_impossible_motion_covers_nothing(
    initial_speed: Binary64,
    final_speed: Binary64,
    duration: Binary64,
    distance: Binary64,
)
    ensures
        ({
            let points = motion_points(initial_speed, final_speed, duration, distance);
            let is_possible = number(0).less(duration) && !distance.less(number(0))
                && initial_speed.is_finite() && final_speed.is_finite();
            &&& !is_possible ==> points.len() == 1 && points[0].time == number(0)
                && points[0].distance == number(0) && points[0].speed == number(0)
            &&& is_possible ==> points.len() == 50
        }),
{
    let control = control_time(initial_speed, final_speed, duration, distance);
    if number(0).less(duration) && !distance.less(number(0)) {
        law_samples_never_go_back(
            time_curve(control, duration),
            distance_curve(control, initial_speed, final_speed, distance),
            50,
        );
    }
}

/// The speed on a motion is the way covered over the time taken, by the slopes there; nothing
/// where no way is covered or no time goes on.
pub proof fn law_speeds_are_slopes(in_time: Binary64, in_distance: Binary64)
    ensures
        ({
            let speed = slope_speed(in_time, in_distance);
            let moves = number(0).less(in_time) && !in_distance.equals(number(0));
            &&& moves ==> speed == in_distance.over(in_time).absolute()
            &&& !moves ==> speed == number(0)
        }),
{
}

/// Each sample of a motion is the point of both curves at its position, held from the sample
/// before it up to the ends of the curves; the first one from nothing.
pub proof fn law_samples_follow_the_curves(
    times: CubicBezierCurve,
    distances: CubicBezierCurve,
    n: nat,
)
    ensures
        ({
            let known = samples(times, distances, n);
            let longer = samples(times, distances, n + 1);
            let position = sample_position(n as int);
            let (time, way) = if n > 0 {
                (known.last().time, known.last().distance)
            } else {
                (number(0), number(0))
            };
            &&& longer.len() == n + 1
            &&& longer.drop_last() == known
            &&& longer.last().time == times.point(position).clamp(time, times.finish)
            &&& longer.last().distance == distances.point(position).clamp(way, distances.finish)
            &&& longer.last().speed == slope_speed(
                times.derivative(position),
                distances.derivative(position),
            )
        }),
    decreases n,
{
    if n > 0 {
        law_samples_follow_the_curves(times, distances, (n - 1) as nat);
    }
    let known = samples(times, distances, n);
    assert(samples(times, distances, n + 1).drop_last() =~= known);
}

/// A stream knows the length up to each vertex of its line, nothing up to the first one.
pub proof fn law_streams_know_the_lengths_of_their_lines(measures: Seq<SegmentMeasure>, i: int)
    ensures
        vertex_distances(measures).len() == measures.len() + 1,
        vertex_distances(measures)[0] == number(0),
        0 <= i < measures.len() ==> vertex_distances(measures)[i + 1] == vertex_distances(
            measures,
        )[i].plus(measures[i].length_meters),
{
    let lengths = lengths_of(measures);
    assert(total_length(lengths, 0) == number(0));
    if 0 <= i < measures.len() {
        assert(total_length(lengths, (i + 1) as nat) == total_length(lengths, i as nat).plus(
            lengths[i],
        ));
    }
}

/// The motion of a stream goes on exactly where it has one that has not ended. A stream that
/// is forgotten has neither motion nor tick, on the same line.
pub proof fn law_streams_go_on_until_their_motion_ends(stream: Stream)
    ensures
        goes_on(stream) <==> stream.motion is Some && stream.motion->0.available,
        forgotten(stream).motion is None,
        forgotten(stream).last_tick is None,
        forgotten(stream).coords == stream.coords,
        forgotten(stream).cumulative == stream.cumulative,
        forgotten(stream).measures == stream.measures,
{
}

} // verus!
