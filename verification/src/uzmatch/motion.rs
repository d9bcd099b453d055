//! Renders a position that moves smoothly along the route between fixes.
//!
//! Between two fixes the way covered follows a cubic Bezier curve over time, sampled
//! at a fixed number of points.
use vstd::prelude::*;

use crate::binary64::{number, Binary64, HALF, ONE, THREE, ZERO};
use crate::lists::copied;
use crate::models::{CourseOverGround, GeographicCoordinate, Route, UserLocation};
use crate::rounding_bounds::law_sum_is_not_below;
use crate::time::{Span, Timestamp};
use crate::uzmatch::snap::{
    cumulative_lengths, line_point, lengths_of, point_at_distance, segment_count, total_length,
    SegmentMeasure,
};

verus! {

/// 0.5: where along the time the curve's control points lie.
pub const PATH_CURVATURE: u64 = HALF;

/// The number of points that a motion is sampled at.
pub const PATH_POINT_NUMBER: usize = 50;

/// 49.0
pub const LAST_SAMPLE: u64 = 0x4048_8000_0000_0000;

/// 6.0
pub const SIX: u64 = 0x4018_0000_0000_0000;

/// 200 kilometres per hour in metres per second.
pub const MAXIMAL_POSSIBLE_SPEED: u64 = 0x404b_c71c_71c7_1c72;

/// A fix later than these milliseconds after the rendered position ends the motion.
pub const MAXIMAL_MOTION_LOCATION_DELAY: u64 = 2_000;

/// 10.0: a step back of more than these metres ends the motion.
pub const JUMP_DISTANCE_THRESHOLD: u64 = 0x4024_0000_0000_0000;

/// A gap between ticks of more than these milliseconds starts the stream anew.
pub const MAX_REASONABLE_ADVANCEMENT: u64 = 10_000;

/// A point of a motion.
#[derive(Clone, Copy, PartialEq, Eq, Structural, Debug)]
pub struct MotionPoint {
    /// Seconds since the motion started.
    pub time: Binary64,
    /// Metres covered since the motion started.
    pub distance: Binary64,
    /// The speed there, in metres per second.
    pub speed: Binary64,
}

/// A point of no motion.
pub open spec fn at_rest() -> MotionPoint {
    MotionPoint { time: number(ZERO), distance: number(ZERO), speed: number(ZERO) }
}

/// A cubic Bezier curve in one axis.
#[derive(Clone, Copy, PartialEq, Eq, Structural, Debug)]
pub struct CubicBezierCurve {
    /// Where it starts.
    pub start: Binary64,
    /// Where it heads for at the start.
    pub start_control: Binary64,
    /// Where it comes from at the end.
    pub finish_control: Binary64,
    /// Where it ends.
    pub finish: Binary64,
}

impl CubicBezierCurve {
    /// The curve at a position from zero to one.
    pub open spec fn spec_point(self, position: Binary64) -> Binary64 {
        let t = position;
        let s = number(ONE).minus(t);
        s.times(s).times(s).times(self.start).plus(
            number(THREE).times(s).times(s).times(t).times(self.start_control),
        ).plus(number(THREE).times(s).times(t).times(t).times(self.finish_control)).plus(
            t.times(t).times(t).times(self.finish),
        )
    }

    /// The curve at a position from zero to one.
    #[verifier::when_used_as_spec(spec_point)]
    pub fn point(self, position: Binary64) -> (r: Binary64)
        ensures
            r == self.spec_point(position),
    {
        let t: Binary64 = position;
        let s: Binary64 = number(ONE).minus(t);
        s.times(s).times(s).times(self.start).plus(
            number(THREE).times(s).times(s).times(t).times(self.start_control),
        ).plus(number(THREE).times(s).times(t).times(t).times(self.finish_control)).plus(
            t.times(t).times(t).times(self.finish),
        )
    }

    /// The slope of the curve at a position from zero to one.
    pub open spec fn spec_derivative(self, position: Binary64) -> Binary64 {
        let t = position;
        let s = number(ONE).minus(t);
        number(THREE).times(s).times(s).times(self.start_control.minus(self.start)).plus(
            number(SIX).times(s).times(t).times(self.finish_control.minus(self.start_control)),
        ).plus(number(THREE).times(t).times(t).times(self.finish.minus(self.finish_control)))
    }

    /// The slope of the curve at a position from zero to one.
    #[verifier::when_used_as_spec(spec_derivative)]
    pub fn derivative(self, position: Binary64) -> (r: Binary64)
        ensures
            r == self.spec_derivative(position),
    {
        let t: Binary64 = position;
        let s: Binary64 = number(ONE).minus(t);
        number(THREE).times(s).times(s).times(self.start_control.minus(self.start)).plus(
            number(SIX).times(s).times(t).times(self.finish_control.minus(self.start_control)),
        ).plus(number(THREE).times(t).times(t).times(self.finish.minus(self.finish_control)))
    }
}

/// Whether a motion can be computed from its speeds, duration and distance.
pub open spec fn is_possible(
    initial_speed: Binary64,
    final_speed: Binary64,
    duration: Binary64,
    distance: Binary64,
) -> bool {
    number(ZERO).less(duration) && !distance.less(number(ZERO)) && initial_speed.is_finite()
        && final_speed.is_finite()
}

/// When the control points lie: at half the duration, or earlier where a speed would
/// carry the curve beyond the distance by then.
pub open spec fn control_time(
    initial_speed: Binary64,
    final_speed: Binary64,
    duration: Binary64,
    distance: Binary64,
) -> Binary64 {
    let half = duration.times(number(PATH_CURVATURE));
    let first = if distance.less(initial_speed.times(half)) {
        distance.over(initial_speed)
    } else {
        half
    };
    if distance.less(final_speed.times(first)) {
        distance.over(final_speed)
    } else {
        first
    }
}

/// The curve of a motion in the time axis.
pub open spec fn time_curve(control: Binary64, duration: Binary64) -> CubicBezierCurve {
    CubicBezierCurve {
        start: number(ZERO),
        start_control: control,
        finish_control: duration.minus(control),
        finish: duration,
    }
}

/// The curve of a motion in the distance axis.
pub open spec fn distance_curve(
    control: Binary64,
    initial_speed: Binary64,
    final_speed: Binary64,
    distance: Binary64,
) -> CubicBezierCurve {
    CubicBezierCurve {
        start: number(ZERO),
        start_control: control.times(initial_speed).min(distance),
        finish_control: distance.minus(control.times(final_speed).min(distance)),
        finish: distance,
    }
}

/// Where on the curve sample `index` is taken.
pub open spec fn sample_position(index: int) -> Binary64 {
    Binary64::from_integer(index as u128).over(number(LAST_SAMPLE)).min(number(ONE))
}

/// The speed on the curve, from its slopes.
pub open spec fn slope_speed(in_time: Binary64, in_distance: Binary64) -> Binary64 {
    if !in_distance.equals(number(ZERO)) && number(ZERO).less(in_time) {
        in_distance.over(in_time).absolute()
    } else {
        number(ZERO)
    }
}

/// A sample of the curve, held between the sample before it and the curve's end.
pub open spec fn sample(
    times: CubicBezierCurve,
    distances: CubicBezierCurve,
    index: int,
    before: MotionPoint,
) -> MotionPoint {
    let position = sample_position(index);
    MotionPoint {
        time: times.point(position).clamp(before.time, times.finish),
        distance: distances.point(position).clamp(before.distance, distances.finish),
        speed: slope_speed(times.derivative(position), distances.derivative(position)),
    }
}

/// The first `n` samples of the curve.
pub open spec fn samples(
    times: CubicBezierCurve,
    distances: CubicBezierCurve,
    n: nat,
) -> Seq<MotionPoint>
    decreases n,
{
    if n == 0 {
        Seq::empty()
    } else {
        let known = samples(times, distances, (n - 1) as nat);
        let before = if known.len() > 0 {
            known.last()
        } else {
            at_rest()
        };
        known.push(sample(times, distances, n - 1, before))
    }
}

/// The points of a motion.
pub open spec fn motion_points(
    initial_speed: Binary64,
    final_speed: Binary64,
    duration: Binary64,
    distance: Binary64,
) -> Seq<MotionPoint> {
    if is_possible(initial_speed, final_speed, duration, distance) {
        let control = control_time(initial_speed, final_speed, duration, distance);
        samples(
            time_curve(control, duration),
            distance_curve(control, initial_speed, final_speed, distance),
            PATH_POINT_NUMBER as nat,
        )
    } else {
        seq![at_rest()]
    }
}

/// The first point from a number on whose time is not before a time; the number of
/// points where there is none.
pub open spec fn first_reaching(points: Seq<MotionPoint>, time: Binary64, from: nat) -> nat
    decreases points.len() - from,
{
    if from >= points.len() || time.at_most(points[from as int].time) {
        from
    } else {
        first_reaching(points, time, from + 1)
    }
}

/// The point of a motion at a time: between samples on a straight line, and after the
/// last one on with its speed.
pub open spec fn point_at(points: Seq<MotionPoint>, time: Binary64) -> MotionPoint {
    let next_index = first_reaching(points, time, 0);
    if !time.is_finite() || time.less(number(ZERO)) || next_index == 0 {
        points[0]
    } else if next_index >= points.len() {
        let last = points.last();
        MotionPoint {
            time,
            distance: last.distance.plus(time.minus(last.time).times(last.speed)),
            speed: last.speed,
        }
    } else {
        let next = points[next_index as int];
        let previous = points[next_index - 1];
        let span = next.time.minus(previous.time);
        let factor = if number(ZERO).less(span) {
            time.minus(previous.time).over(span)
        } else {
            number(ZERO)
        };
        MotionPoint {
            time,
            distance: previous.distance.plus(
                next.distance.minus(previous.distance).times(factor),
            ),
            speed: previous.speed.plus(next.speed.minus(previous.speed).times(factor)),
        }
    }
}

/// A motion along one axis with given speeds at its ends.
#[derive(Debug)]
pub struct OneDimensionalMotion {
    points: Vec<MotionPoint>,
}

impl View for OneDimensionalMotion {
    type V = Seq<MotionPoint>;

    closed spec fn view(&self) -> Seq<MotionPoint> {
        self.points@
    }
}

impl Default for OneDimensionalMotion {
    /// A motion that covers nothing.
    fn default() -> (r: Self)
        ensures
            r@ == seq![at_rest()],
    {
        let points: Vec<MotionPoint> = vec![
            MotionPoint { time: number(ZERO), distance: number(ZERO), speed: number(ZERO) },
        ];
        OneDimensionalMotion { points }
    }
}

impl OneDimensionalMotion {
    /// A motion has points.
    #[verifier::type_invariant]
    spec fn has_points(&self) -> bool {
        self.points.len() > 0
    }

    /// A motion of a duration over a distance. One that takes no time, goes back or
    /// has no finite speeds covers nothing.
    pub fn new(
        initial_speed: Binary64,
        final_speed: Binary64,
        duration: Binary64,
        distance: Binary64,
    ) -> (r: Self)
        ensures
            r@ == motion_points(initial_speed, final_speed, duration, distance),
    {
        if !number(ZERO).less(duration) || distance.less(number(ZERO)) || !initial_speed.is_finite()
            || !final_speed.is_finite() {
            return OneDimensionalMotion::default();
        }
        let mut control: Binary64 = duration.times(number(PATH_CURVATURE));
        if distance.less(initial_speed.times(control)) {
            control = distance.over(initial_speed);
        }
        if distance.less(final_speed.times(control)) {
            control = distance.over(final_speed);
        }
        let times: CubicBezierCurve = CubicBezierCurve {
            start: number(ZERO),
            start_control: control,
            finish_control: duration.minus(control),
            finish: duration,
        };
        let distances: CubicBezierCurve = CubicBezierCurve {
            start: number(ZERO),
            start_control: control.times(initial_speed).min(distance),
            finish_control: distance.minus(control.times(final_speed).min(distance)),
            finish: distance,
        };
        let mut points: Vec<MotionPoint> = Vec::new();
        let mut before: MotionPoint = MotionPoint {
            time: number(ZERO),
            distance: number(ZERO),
            speed: number(ZERO),
        };
        let mut index: usize = 0;
        while index < PATH_POINT_NUMBER
            invariant
                index <= PATH_POINT_NUMBER,
                times.finish == duration,
                distances.finish == distance,
                points.len() == index,
                points@ == samples(times, distances, index as nat),
                before == (if index > 0 {
                    points@.last()
                } else {
                    at_rest()
                }),
            decreases PATH_POINT_NUMBER - index,
        {
            let position: Binary64 = Binary64::from_integer(index as u128).over(
                number(LAST_SAMPLE),
            ).min(number(ONE));
            let in_time: Binary64 = times.derivative(position);
            let in_distance: Binary64 = distances.derivative(position);
            let speed: Binary64 = if !in_distance.equals(number(ZERO)) && number(ZERO).less(
                in_time,
            ) {
                in_distance.over(in_time).absolute()
            } else {
                number(ZERO)
            };
            let point: MotionPoint = MotionPoint {
                time: times.point(position).clamp(before.time, duration),
                distance: distances.point(position).clamp(before.distance, distance),
                speed,
            };
            points.push(point);
            before = point;
            index = index + 1;
        }
        OneDimensionalMotion { points }
    }

    /// The point of the motion at a time.
    pub fn point(&self, time: Binary64) -> (r: MotionPoint)
        ensures
            r == point_at(self@, time),
    {
        proof {
            use_type_invariant(self);
        }
        if !time.is_finite() || time.less(number(ZERO)) {
            return self.points[0];
        }
        let mut index: usize = 0;
        while index < self.points.len() && !time.at_most(self.points[index].time)
            invariant
                index <= self.points.len(),
                first_reaching(self.points@, time, 0) == first_reaching(
                    self.points@,
                    time,
                    index as nat,
                ),
            decreases self.points.len() - index,
        {
            index = index + 1;
        }
        if index == 0 {
            return self.points[0];
        }
        if index >= self.points.len() {
            let last: MotionPoint = self.points[self.points.len() - 1];
            return MotionPoint {
                time,
                distance: last.distance.plus(time.minus(last.time).times(last.speed)),
                speed: last.speed,
            };
        }
        let next: MotionPoint = self.points[index];
        let previous: MotionPoint = self.points[index - 1];
        let span: Binary64 = next.time.minus(previous.time);
        let factor: Binary64 = if number(ZERO).less(span) {
            time.minus(previous.time).over(span)
        } else {
            number(ZERO)
        };
        MotionPoint {
            time,
            distance: previous.distance.plus(
                next.distance.minus(previous.distance).times(factor),
            ),
            speed: previous.speed.plus(next.speed.minus(previous.speed).times(factor)),
        }
    }
}

/// A rendered position on the route.
#[derive(Clone, Copy, PartialEq, Eq, Structural, Debug)]
pub struct StreamedPosition {
    /// The position.
    pub coordinates: GeographicCoordinate,
    /// The route's direction there.
    pub course_over_ground: Option<CourseOverGround>,
    /// Metres from the start of the route.
    pub distance_along_route_meters: Binary64,
    /// The speed of the motion, where there is one.
    pub speed_mps: Option<Binary64>,
}

/// The motion that a stream renders.
#[derive(Debug)]
struct BoundMotionState {
    current_distance: Binary64,
    current_timestamp: Timestamp,
    motion: OneDimensionalMotion,
    point: MotionPoint,
    available: bool,
}

/// What a stream renders: how far along the route it is and as of when, the motion
/// and the point in it, and whether the motion goes on.
pub struct BoundMotion {
    /// Metres from the start of the route.
    pub current_distance: Binary64,
    /// The instant of the rendered position.
    pub current_timestamp: Timestamp,
    /// The points of the motion towards the latest fix.
    pub motion: Seq<MotionPoint>,
    /// The point in the motion.
    pub point: MotionPoint,
    /// Whether the motion goes on.
    pub available: bool,
}

impl View for BoundMotionState {
    type V = BoundMotion;

    closed spec fn view(&self) -> BoundMotion {
        BoundMotion {
            current_distance: self.current_distance,
            current_timestamp: self.current_timestamp,
            motion: self.motion@,
            point: self.point,
            available: self.available,
        }
    }
}

/// The motion that a first fix gives.
pub open spec fn initial_motion(location: UserLocation, route_distance: Binary64) -> BoundMotion {
    BoundMotion {
        current_distance: route_distance,
        current_timestamp: location.timestamp,
        motion: seq![at_rest()],
        point: MotionPoint {
            time: number(ZERO),
            distance: number(ZERO),
            speed: if location.speed is Some {
                location.speed->0.value
            } else {
                number(ZERO)
            },
        },
        available: true,
    }
}

/// The motion with its course ended.
pub open spec fn ended(state: BoundMotion) -> BoundMotion {
    BoundMotion { available: false, ..state }
}

/// The motion after a further fix. One that is not later, leads back too far, comes
/// too late or too far for the time ends the motion; one that leads back a little
/// stops it; any other leads on to the fix.
pub open spec fn supplied(
    state: BoundMotion,
    location: UserLocation,
    route_distance: Binary64,
) -> BoundMotion {
    let path = route_distance.minus(state.current_distance);
    let interval = Span {
        nanos: (location.timestamp.instant() - state.current_timestamp.instant()) as u128,
    };
    if !state.current_timestamp.before(location.timestamp) {
        ended(state)
    } else if path.less(number(ZERO)) {
        if number(JUMP_DISTANCE_THRESHOLD).less(path.negated()) {
            ended(state)
        } else {
            BoundMotion { motion: seq![at_rest()], point: at_rest(), ..state }
        }
    } else if interval.nanos > Span::from_millis(MAXIMAL_MOTION_LOCATION_DELAY).nanos {
        ended(state)
    } else if number(MAXIMAL_POSSIBLE_SPEED).times(interval.as_seconds()).less(path) {
        ended(state)
    } else {
        let speed = if location.speed is Some {
            location.speed->0.value
        } else {
            number(ZERO)
        };
        let motion = motion_points(state.point.speed, speed, interval.as_seconds(), path);
        BoundMotion { motion, point: point_at(motion, number(ZERO)), ..state }
    }
}

/// What a stream holds.
pub struct Stream {
    /// The line of the route.
    pub coords: Seq<GeographicCoordinate>,
    /// The lengths up to its vertices.
    pub cumulative: Seq<Binary64>,
    /// The measures of its segments.
    pub measures: Seq<SegmentMeasure>,
    /// The motion, where there is one.
    pub motion: Option<BoundMotion>,
    /// The last tick, where there is one.
    pub last_tick: Option<Timestamp>,
}

/// Whether the motion of a stream goes on.
pub open spec fn goes_on(stream: Stream) -> bool {
    match stream.motion {
        Some(state) => state.available,
        None => false,
    }
}

/// The stream without its motion and its last tick.
pub open spec fn forgotten(stream: Stream) -> Stream {
    Stream { motion: None, last_tick: None, ..stream }
}

/// The lengths up to the vertices of a measured line.
pub open spec fn vertex_distances(measures: Seq<SegmentMeasure>) -> Seq<Binary64> {
    Seq::new(measures.len() + 1, |k: int| total_length(lengths_of(measures), k as nat))
}

/// The stream after a fix that is bound to the route.
pub open spec fn fed(stream: Stream, location: UserLocation, route_distance: Binary64) -> Stream {
    match stream.motion {
        Some(state) if state.available => Stream {
            motion: Some(supplied(state, location, route_distance)),
            ..stream
        },
        Some(state) if !state.current_timestamp.before(location.timestamp) => stream,
        _ => Stream {
            motion: Some(initial_motion(location, route_distance)),
            last_tick: None,
            ..stream
        },
    }
}

/// The span since the last tick; nothing without one, or where it is later.
pub open spec fn advancement(last_tick: Option<Timestamp>, now: Timestamp) -> Span {
    match last_tick {
        Some(last) => match now.since(last) {
            Some(span) => span,
            None => Span { nanos: 0 },
        },
        None => Span { nanos: 0 },
    }
}

/// The motion moved on by a span, where it goes on.
pub open spec fn moved(state: BoundMotion, span: Span) -> BoundMotion {
    if state.available {
        let point = point_at(state.motion, state.point.time.plus(span.as_seconds()));
        BoundMotion {
            point,
            current_distance: state.current_distance.plus(
                point.distance.minus(state.point.distance).max(number(ZERO)),
            ),
            current_timestamp: state.current_timestamp.later_by(span),
            ..state
        }
    } else {
        state
    }
}

/// The position that a stream renders for a motion.
pub open spec fn rendered(stream: Stream, state: BoundMotion) -> Option<StreamedPosition> {
    match line_point(stream.coords, stream.cumulative, stream.measures, state.current_distance) {
        Some(point) => Some(
            StreamedPosition {
                coordinates: point.coordinates,
                course_over_ground: Some(point.course),
                distance_along_route_meters: state.current_distance,
                speed_mps: if state.available {
                    Some(state.point.speed)
                } else {
                    None
                },
            },
        ),
        None => None,
    }
}

/// The stream after a tick, and the position that it renders then. A tick too long
/// after the last one starts the stream anew.
pub open spec fn ticked(stream: Stream, now: Timestamp) -> (Stream, Option<StreamedPosition>) {
    let span = advancement(stream.last_tick, now);
    if span.nanos > Span::from_millis(MAX_REASONABLE_ADVANCEMENT).nanos {
        (Stream { motion: None, last_tick: None, ..stream }, None)
    } else {
        match stream.motion {
            Some(state) => {
                let after = Stream {
                    motion: Some(moved(state, span)),
                    last_tick: Some(now),
                    ..stream
                };
                (after, rendered(after, moved(state, span)))
            },
            None => (Stream { last_tick: Some(now), ..stream }, None),
        }
    }
}

/// The position that a stream would render at an instant.
pub open spec fn previewed(stream: Stream, now: Timestamp) -> Option<StreamedPosition> {
    let span = advancement(stream.last_tick, now);
    match stream.motion {
        Some(state) => if span.nanos > Span::from_millis(MAX_REASONABLE_ADVANCEMENT).nanos {
            None
        } else {
            rendered(stream, moved(state, span))
        },
        None => None,
    }
}

fn initial_motion_state(location: &UserLocation, route_distance: Binary64) -> (r: BoundMotionState)
    ensures
        r@ == initial_motion(*location, route_distance),
{
    let speed: Binary64 = match location.speed {
        Some(speed) => speed.value,
        None => number(ZERO),
    };
    BoundMotionState {
        current_distance: route_distance,
        current_timestamp: location.timestamp,
        motion: OneDimensionalMotion::default(),
        point: MotionPoint { time: number(ZERO), distance: number(ZERO), speed },
        available: true,
    }
}

fn supply_location(
    state: BoundMotionState,
    location: &UserLocation,
    route_distance: Binary64,
) -> (r: BoundMotionState)
    ensures
        r@ == supplied(state@, *location, route_distance),
{
    let mut state: BoundMotionState = state;
    if !state.current_timestamp.before(location.timestamp) {
        state.available = false;
        return state;
    }
    let path: Binary64 = route_distance.minus(state.current_distance);
    if path.less(number(ZERO)) {
        if number(JUMP_DISTANCE_THRESHOLD).less(path.negated()) {
            state.available = false;
        } else {
            state.motion = OneDimensionalMotion::default();
            state.point = state.motion.point(number(ZERO));
        }
        return state;
    }
    let interval: Span = match location.timestamp.since(state.current_timestamp) {
        Some(interval) => interval,
        None => {
            state.available = false;
            return state;
        },
    };
    if interval.nanos > Span::from_millis(MAXIMAL_MOTION_LOCATION_DELAY).nanos {
        state.available = false;
        return state;
    }
    if number(MAXIMAL_POSSIBLE_SPEED).times(interval.as_seconds()).less(path) {
        state.available = false;
        return state;
    }
    let speed: Binary64 = match location.speed {
        Some(speed) => speed.value,
        None => number(ZERO),
    };
    state.motion = OneDimensionalMotion::new(
        state.point.speed,
        speed,
        interval.as_seconds(),
        path,
    );
    state.point = state.motion.point(number(ZERO));
    state
}

/// A line with the lengths up to its vertices and the measures of its segments.
#[derive(Debug)]
struct MeasuredLine {
    coords: Vec<GeographicCoordinate>,
    cumulative: Vec<Binary64>,
    measures: Vec<SegmentMeasure>,
}

impl MeasuredLine {
    /// Lengths and measures belong to the line.
    #[verifier::type_invariant]
    spec fn consistent(&self) -> bool {
        self.coords.len() >= 2 ==> self.cumulative.len() == self.coords.len()
            && self.measures.len() + 1 == self.coords.len()
    }
}

/// Streams a position that moves along a route.
///
/// Every fix that is bound to the route goes in by `on_route_bound_location`; the
/// display draws positions by `advance_to` at its frame rate.
#[derive(Debug)]
pub struct RouteBoundStreamer {
    line: MeasuredLine,
    motion: Option<BoundMotionState>,
    last_tick: Option<Timestamp>,
}

impl View for RouteBoundStreamer {
    type V = Stream;

    closed spec fn view(&self) -> Stream {
        Stream {
            coords: self.line.coords@,
            cumulative: self.line.cumulative@,
            measures: self.line.measures@,
            motion: match self.motion {
                Some(state) => Some(state@),
                None => None,
            },
            last_tick: self.last_tick,
        }
    }
}

impl RouteBoundStreamer {
    /// A stream along a route, given the measures of the segments of its line.
    pub fn new(route: &Route, measures: &Vec<SegmentMeasure>) -> (r: Self)
        requires
            measures.len() == segment_count(route.geometry@.len()),
        ensures
            r@ == (Stream {
                coords: route.geometry@,
                cumulative: vertex_distances(measures@),
                measures: measures@,
                motion: None,
                last_tick: None,
            }),
    {
        let mut lengths: Vec<Binary64> = Vec::new();
        let mut i: usize = 0;
        while i < measures.len()
            invariant
                i <= measures.len(),
                lengths.len() == i,
                forall|k: int| 0 <= k < i ==> lengths[k] == (#[trigger] measures[k]).length_meters,
            decreases measures.len() - i,
        {
            lengths.push(measures[i].length_meters);
            i = i + 1;
        }
        assert(lengths@ =~= lengths_of(measures@));
        assert(route.geometry.len() <= usize::MAX);
        let cumulative: Vec<Binary64> = cumulative_lengths(&lengths);
        assert(cumulative@ =~= vertex_distances(measures@));
        let line: MeasuredLine = MeasuredLine {
            coords: copied(&route.geometry),
            cumulative,
            measures: copied(measures),
        };
        RouteBoundStreamer { line, motion: None, last_tick: None }
    }

    /// Takes in a fix that is bound to the route at a distance from its start.
    pub fn on_route_bound_location(
        &mut self,
        location: UserLocation,
        distance_along_route_meters: Binary64,
    )
        ensures
            final(self)@ == fed(old(self)@, location, distance_along_route_meters),
    {
        let motion: Option<BoundMotionState> = self.motion.take();
        match motion {
            Some(state) => {
                if state.available {
                    let next: BoundMotionState = supply_location(
                        state,
                        &location,
                        distance_along_route_meters,
                    );
                    self.motion = Some(next);
                } else if !state.current_timestamp.before(location.timestamp) {
                    self.motion = Some(state);
                } else {
                    self.motion = Some(
                        initial_motion_state(&location, distance_along_route_meters),
                    );
                    self.last_tick = None;
                }
            },
            None => {
                self.motion = Some(initial_motion_state(&location, distance_along_route_meters));
                self.last_tick = None;
            },
        }
    }

    fn render(
        &self,
        distance: Binary64,
        speed: Option<Binary64>,
    ) -> (r: Option<StreamedPosition>)
        ensures
            r == (match line_point(self@.coords, self@.cumulative, self@.measures, distance) {
                Some(point) => Some(
                    StreamedPosition {
                        coordinates: point.coordinates,
                        course_over_ground: Some(point.course),
                        distance_along_route_meters: distance,
                        speed_mps: speed,
                    },
                ),
                None => None,
            }),
    {
        proof {
            use_type_invariant(&self.line);
        }
        let line: &MeasuredLine = &self.line;
        match point_at_distance(&line.coords, &line.cumulative, &line.measures, distance) {
            Some(point) => Some(
                StreamedPosition {
                    coordinates: point.coordinates,
                    course_over_ground: Some(point.course),
                    distance_along_route_meters: distance,
                    speed_mps: speed,
                },
            ),
            None => None,
        }
    }

    fn since_last_tick(&self, now: Timestamp) -> (r: Span)
        ensures
            r == advancement(self@.last_tick, now),
    {
        match self.last_tick {
            Some(last) => match now.since(last) {
                Some(span) => span,
                None => Span { nanos: 0 },
            },
            None => Span { nanos: 0 },
        }
    }

    /// Moves the rendered position on to an instant.
    pub fn advance_to(&mut self, now: Timestamp) -> (r: Option<StreamedPosition>)
        ensures
            (final(self)@, r) == ticked(old(self)@, now),
    {
        let span: Span = self.since_last_tick(now);
        if span.nanos > Span::from_millis(MAX_REASONABLE_ADVANCEMENT).nanos {
            self.motion = None;
            self.last_tick = None;
            return None;
        }
        self.last_tick = Some(now);
        let motion: Option<BoundMotionState> = self.motion.take();
        let mut state: BoundMotionState = match motion {
            Some(state) => state,
            None => return None,
        };
        if state.available {
            let before: MotionPoint = state.point;
            let point: MotionPoint = state.motion.point(before.time.plus(span.as_seconds()));
            let step: Binary64 = point.distance.minus(before.distance).max(number(ZERO));
            state.point = point;
            state.current_distance = state.current_distance.plus(step);
            state.current_timestamp = state.current_timestamp.later_by(span);
        }
        let distance: Binary64 = state.current_distance;
        let speed: Option<Binary64> = if state.available {
            Some(state.point.speed)
        } else {
            None
        };
        self.motion = Some(state);
        self.render(distance, speed)
    }

    /// The position that would be rendered at an instant; nothing changes.
    pub fn preview_at(&self, now: Timestamp) -> (r: Option<StreamedPosition>)
        ensures
            r == previewed(self@, now),
    {
        let state: &BoundMotionState = match &self.motion {
            Some(state) => state,
            None => return None,
        };
        let span: Span = self.since_last_tick(now);
        if span.nanos > Span::from_millis(MAX_REASONABLE_ADVANCEMENT).nanos {
            return None;
        }
        if state.available {
            let point: MotionPoint = state.motion.point(state.point.time.plus(span.as_seconds()));
            let step: Binary64 = point.distance.minus(state.point.distance).max(number(ZERO));
            self.render(state.current_distance.plus(step), Some(point.speed))
        } else {
            self.render(state.current_distance, None)
        }
    }

    /// Whether the motion goes on.
    pub fn is_available(&self) -> (r: bool)
        ensures
            r == (self@.motion is Some && self@.motion->0.available),
            r == goes_on(self@),
    {
        match &self.motion {
            Some(state) => state.available,
            None => false,
        }
    }

    /// Forgets the motion and the last tick.
    pub fn reset(&mut self)
        ensures
            final(self)@ == (Stream { motion: None, last_tick: None, ..old(self)@ }),
            final(self)@ == forgotten(old(self)@),
    {
        self.motion = None;
        self.last_tick = None;
    }
}

/// A preview shows what a tick at the same instant renders.
pub proof fn law_preview_shows_the_next_tick(stream: Stream, now: Timestamp)
    ensures
        previewed(stream, now) == ticked(stream, now).1,
{
}

/// A tick never moves the rendered position back along the route, where both positions
/// are numbers.
pub proof fn law_ticks_never_go_back(state: BoundMotion, span: Span)
    requires
        !state.current_distance.is_nan(),
        !moved(state, span).current_distance.is_nan(),
    ensures
        state.current_distance.at_most(moved(state, span).current_distance),
{
    let before = state.current_distance;
    if state.available && !(before.is_infinite() && before.is_negative()) {
        let point = point_at(state.motion, state.point.time.plus(span.as_seconds()));
        let step = point.distance.minus(state.point.distance).max(number(ZERO));
        law_sum_is_not_below(before, step);
    }
}

/// A fix never makes the position of a motion that goes on jump: only ticks move it.
pub proof fn law_fix_moves_no_position(
    stream: Stream,
    location: UserLocation,
    route_distance: Binary64,
)
    requires
        stream.motion is Some,
        stream.motion->0.available,
    ensures
        fed(stream, location, route_distance).motion is Some,
        fed(stream, location, route_distance).motion->0.current_distance
            == stream.motion->0.current_distance,
        fed(stream, location, route_distance).motion->0.current_timestamp
            == stream.motion->0.current_timestamp,
        fed(stream, location, route_distance).last_tick == stream.last_tick,
{
}

/// A gap between ticks that is too long forgets the motion.
pub proof fn law_long_gap_starts_anew(stream: Stream, now: Timestamp)
    requires
        stream.last_tick is Some,
        now.instant() - stream.last_tick->0.instant() > MAX_REASONABLE_ADVANCEMENT * 1_000_000,
    ensures
        ticked(stream, now).0.motion is None,
        ticked(stream, now).1 is None,
{
}

/// An ended motion stays as it is until a later fix comes, which starts a new one.
pub proof fn law_ended_motion_recovers_from_a_later_fix(
    stream: Stream,
    location: UserLocation,
    route_distance: Binary64,
)
    requires
        stream.motion is Some,
        !stream.motion->0.available,
    ensures
        stream.motion->0.current_timestamp.before(location.timestamp) ==> fed(
            stream,
            location,
            route_distance,
        ).motion == Some(initial_motion(location, route_distance)),
        !stream.motion->0.current_timestamp.before(location.timestamp) ==> fed(
            stream,
            location,
            route_distance,
        ) == stream,
{
}

} // verus!
