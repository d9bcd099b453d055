use geo::{Bearing, Distance, Geodesic, Haversine, Point};
use uznav::binary64::{number, Binary64};
use uznav::models::{
    BoundingBox, CourseOverGround, GeographicCoordinate, Route, Speed, UserLocation,
};
use uznav::time::Timestamp;
use uznav::uzmatch::motion::{OneDimensionalMotion, RouteBoundStreamer};
use uznav::uzmatch::snap::SegmentMeasure;

fn b(x: f64) -> Binary64 {
    number(x.to_bits())
}

fn f(x: Binary64) -> f64 {
    f64::from_bits(x.bits)
}

fn coordinate(lat: f64, lng: f64) -> GeographicCoordinate {
    GeographicCoordinate { lat: b(lat), lng: b(lng) }
}

fn point(c: GeographicCoordinate) -> Point {
    Point::new(f(c.lng), f(c.lat))
}

fn measures(coords: &[GeographicCoordinate]) -> Vec<SegmentMeasure> {
    coords
        .windows(2)
        .map(|pair| {
            let bearing = Geodesic.bearing(point(pair[0]), point(pair[1]));
            SegmentMeasure {
                length_meters: b(Haversine.distance(point(pair[0]), point(pair[1]))),
                bearing_degrees: b(bearing),
                course: CourseOverGround {
                    degrees: bearing.rem_euclid(360.0).round() as u16,
                    accuracy: None,
                },
            }
        })
        .collect()
}

fn at(secs: i64) -> Timestamp {
    Timestamp { seconds: secs, nanos: 0 }
}

fn half_past(secs: i64) -> Timestamp {
    Timestamp { seconds: secs, nanos: 500_000_000 }
}

fn test_route() -> Route {
    Route {
        geometry: (0..=10).map(|i| coordinate(0.0, i as f64 * 0.0001)).collect(),
        bbox: BoundingBox { sw: coordinate(0.0, 0.0), ne: coordinate(0.0, 0.001) },
        distance: b(111.0),
        waypoints: vec![],
        steps: vec![],
    }
}

fn streamer(route: &Route) -> RouteBoundStreamer {
    RouteBoundStreamer::new(route, &measures(&route.geometry))
}

fn total(route: &Route) -> f64 {
    measures(&route.geometry).iter().map(|m| f(m.length_meters)).sum()
}

fn fix(secs: i64, lng: f64) -> UserLocation {
    UserLocation {
        coordinates: coordinate(0.0, lng),
        horizontal_accuracy: b(5.0),
        course_over_ground: None,
        timestamp: at(secs),
        speed: None,
    }
}

fn motion(initial: f64, last: f64, duration: f64, distance: f64) -> OneDimensionalMotion {
    OneDimensionalMotion::new(b(initial), b(last), b(duration), b(distance))
}

#[test]
fn bezier_motion_is_monotonic_and_covers_distance() {
    let motion = motion(5.0, 8.0, 2.0, 14.0);
    let mut last = motion.point(b(0.0));
    for i in 1..=100 {
        let t = i as f64 * 0.02;
        let p = motion.point(b(t));
        assert!(f(p.time) >= f(last.time));
        assert!(f(p.distance) >= f(last.distance) - 1e-9, "distance must be non-decreasing");
        last = p;
    }
    let end = motion.point(b(2.0));
    assert!((f(end.distance) - 14.0).abs() < 1e-6);
}

#[test]
fn zero_distance_motion_is_safe() {
    let motion = motion(0.0, 0.0, 1.0, 0.0);
    assert_eq!(f(motion.point(b(0.5)).distance), 0.0);
    assert_eq!(f(motion.point(b(2.0)).distance), 0.0);
}

#[test]
fn extrapolates_beyond_motion_end_with_last_speed() {
    let motion = motion(10.0, 10.0, 1.0, 10.0);
    let p = motion.point(b(2.0));
    assert!(f(p.distance) > 10.0, "must extrapolate past the end");
    assert!((f(p.speed) - 10.0).abs() < 1e-6);
}

#[test]
fn streamer_advances_along_route_between_fixes() {
    let route = test_route();
    let total = total(&route);
    let mut streamer = streamer(&route);
    streamer.on_route_bound_location(fix(0, 0.0), b(0.0));
    let seg_len = total / 10.0;
    streamer.on_route_bound_location(fix(1, 0.001), b(seg_len));

    let rendered = streamer.advance_to(at(1)).unwrap();
    assert!(f(rendered.distance_along_route_meters) >= 0.0);
    let halfway = streamer.advance_to(half_past(1)).unwrap();
    assert!(
        f(halfway.distance_along_route_meters) > f(rendered.distance_along_route_meters)
    );
    assert!(f(halfway.distance_along_route_meters) <= seg_len + 1.0);
}

#[test]
fn streamer_rejects_late_fix() {
    let route = test_route();
    let mut streamer = streamer(&route);
    streamer.on_route_bound_location(fix(0, 0.0), b(0.0));
    streamer.on_route_bound_location(fix(3, 0.001), b(100.0));
    assert!(!streamer.is_available());

    streamer.on_route_bound_location(fix(4, 0.0011), b(110.0));
    assert!(streamer.is_available());
    let recovered = streamer.advance_to(at(4)).expect("fresh fix must recover motion");
    assert!((f(recovered.distance_along_route_meters) - 110.0).abs() < 1e-6);
}

#[test]
fn streamer_does_not_recover_from_a_second_out_of_order_fix() {
    let route = test_route();
    let mut streamer = streamer(&route);
    streamer.on_route_bound_location(fix(10, 0.001), b(100.0));
    streamer.on_route_bound_location(fix(8, 0.0008), b(80.0));
    assert!(!streamer.is_available());

    streamer.on_route_bound_location(fix(9, 0.0009), b(90.0));

    assert!(!streamer.is_available());
    let position = streamer
        .advance_to(at(10))
        .expect("the last reliable anchor remains renderable");
    assert!((f(position.distance_along_route_meters) - 100.0).abs() < 1e-6);
}

#[test]
fn streamer_rejects_implausibly_fast_fix() {
    let route = test_route();
    let mut streamer = streamer(&route);
    streamer.on_route_bound_location(fix(0, 0.0), b(0.0));
    streamer.on_route_bound_location(fix(1, 0.005), b(1000.0));
    assert!(!streamer.is_available());
}

#[test]
fn streamer_resets_after_long_tick_gap() {
    let route = test_route();
    let mut streamer = streamer(&route);
    streamer.on_route_bound_location(fix(0, 0.0), b(0.0));
    assert!(streamer.advance_to(at(1)).is_some());
    assert!(streamer.advance_to(at(12)).is_none());
    assert!(!streamer.is_available());
}

#[test]
fn preview_does_not_mutate_tick_state() {
    let route = test_route();
    let seg_len = total(&route) / 10.0;
    let mut streamer = streamer(&route);
    streamer.on_route_bound_location(fix(0, 0.0), b(0.0));
    streamer.on_route_bound_location(fix(1, 0.0001), b(seg_len));
    let _ = streamer.advance_to(at(1)).unwrap();

    let preview = streamer.preview_at(at(2)).unwrap();
    assert!(
        (f(preview.distance_along_route_meters) - seg_len).abs() < 1.0,
        "preview must land at the motion end, got {}",
        f(preview.distance_along_route_meters)
    );

    let rendered = streamer.advance_to(half_past(1)).unwrap();
    assert!(
        f(rendered.distance_along_route_meters) < seg_len,
        "tick after preview must still be mid-motion, got {}",
        f(rendered.distance_along_route_meters)
    );
}

#[test]
fn backward_jump_over_threshold_kills_motion() {
    let route = test_route();
    let total = total(&route);
    let mut streamer = streamer(&route);
    streamer.on_route_bound_location(fix(0, 0.005), b(total / 2.0));
    streamer.on_route_bound_location(fix(1, 0.0), b(total / 2.0 - 50.0));
    assert!(!streamer.is_available());
}

#[test]
fn a_preview_shows_the_next_tick() {
    let route = test_route();
    let mut streamer = streamer(&route);
    streamer.on_route_bound_location(fix(0, 0.0), b(0.0));
    streamer.on_route_bound_location(fix(1, 0.0001), b(11.0));
    streamer.advance_to(at(1));
    let preview = streamer.preview_at(half_past(1));
    assert!(preview.is_some());
    assert_eq!(preview, streamer.advance_to(half_past(1)));
}

#[test]
fn a_small_step_back_keeps_the_motion_at_rest() {
    let route = test_route();
    let mut streamer = streamer(&route);
    streamer.on_route_bound_location(fix(0, 0.0005), b(55.0));
    streamer.on_route_bound_location(fix(1, 0.0005), b(54.0));
    assert!(streamer.is_available());
    streamer.advance_to(at(1));
    let rendered = streamer.advance_to(at(2)).unwrap();
    assert_eq!(f(rendered.distance_along_route_meters), 55.0);
    assert_eq!(rendered.speed_mps, Some(b(0.0)));
}

#[test]
fn a_fresh_stream_renders_nothing() {
    let route = test_route();
    let mut streamer = streamer(&route);
    assert!(!streamer.is_available());
    assert_eq!(streamer.preview_at(at(0)), None);
    assert_eq!(streamer.advance_to(at(0)), None);
    streamer.on_route_bound_location(fix(1, 0.0), b(0.0));
    assert!(streamer.is_available());
    streamer.reset();
    assert!(!streamer.is_available());
    assert_eq!(streamer.advance_to(at(2)), None);
}

#[test]
fn rendering_follows_the_route() {
    let route = test_route();
    let mut streamer = streamer(&route);
    let seg_len = total(&route) / 10.0;
    let location = UserLocation {
        speed: Some(Speed { value: b(3.0), accuracy: None }),
        ..fix(0, 0.0005)
    };
    streamer.on_route_bound_location(location, b(seg_len * 5.0));
    let rendered = streamer.advance_to(at(0)).unwrap();
    assert!((f(rendered.coordinates.lng) - 0.0005).abs() < 1e-9);
    assert_eq!(f(rendered.coordinates.lat), 0.0);
    assert_eq!(
        rendered.course_over_ground,
        Some(CourseOverGround { degrees: 90, accuracy: None })
    );
}

#[test]
fn motions_end_exactly_where_they_should() {
    for (initial, last, duration, distance) in [
        (5.0, 8.0, 2.0, 14.0),
        (0.0, 0.0, 1.0, 7.3),
        (55.0, 1.0, 0.25, 3.0),
        (1e-3, 40.0, 1.5, 60.0),
    ] {
        let end = motion(initial, last, duration, distance).point(b(duration));
        assert_eq!(f(end.distance), distance);
        assert_eq!(f(end.time), duration);
    }
}

#[test]
fn impossible_motions_cover_nothing() {
    for (initial, last, duration, distance) in [
        (5.0, 8.0, 0.0, 14.0),
        (5.0, 8.0, -1.0, 14.0),
        (5.0, 8.0, 2.0, -1.0),
        (f64::NAN, 8.0, 2.0, 14.0),
        (5.0, f64::INFINITY, 2.0, 14.0),
    ] {
        let motion = motion(initial, last, duration, distance);
        assert_eq!(f(motion.point(b(0.5)).distance), 0.0);
        assert_eq!(f(motion.point(b(10.0)).distance), 0.0);
    }
}

#[test]
fn times_before_the_motion_are_at_its_start() {
    let motion = motion(5.0, 8.0, 2.0, 14.0);
    assert_eq!(motion.point(b(-1.0)), motion.point(b(0.0)));
    assert_eq!(motion.point(b(f64::NAN)), motion.point(b(0.0)));
    assert_eq!(f(motion.point(b(0.0)).distance), 0.0);
}

#[test]
fn the_rendered_position_never_jumps_or_goes_back() {
    let route = test_route();
    let mut stream = streamer(&route);
    let moving = |secs: i64, lng: f64| UserLocation {
        speed: Some(Speed { value: b(5.0), accuracy: None }),
        ..fix(secs, lng)
    };
    stream.on_route_bound_location(moving(0, 0.0), b(0.0));
    let mut last = f(stream.advance_to(at(0)).unwrap().distance_along_route_meters);
    for (secs, metres) in [(1, 5.0), (2, 11.0), (3, 10.0), (4, 16.0)] {
        stream.on_route_bound_location(moving(secs, 0.0), b(metres));
        let shown = stream.preview_at(at(secs - 1)).unwrap();
        assert_eq!(f(shown.distance_along_route_meters), last);
        for tick in [half_past(secs - 1), at(secs)] {
            let now = f(stream.advance_to(tick).unwrap().distance_along_route_meters);
            assert!(now >= last, "went back from {last} to {now}");
            last = now;
        }
    }
    assert!(last > 10.0);
}

const ORDINARY: [(f64, f64, f64, f64); 10] = [
    (5.0, 8.0, 2.0, 14.0),
    (0.0, 0.0, 1.0, 7.3),
    (55.0, 1.0, 0.25, 3.0),
    (1e-3, 40.0, 1.5, 60.0),
    (1000.0, 1000.0, 0.001, 100_000.0),
    (1000.0, 0.0, 1000.0, 1e-12),
    (0.0, 1000.0, 1000.0, 1e-300),
    (3.0, 4.0, 1000.0, 100_000.0),
    (-0.0, -0.0, 1.0, 5.0),
    (2.0, 0.0, 1.0, -0.0),
];

#[test]
fn motions_never_go_back_but_for_rounding() {
    for (initial, last, duration, distance) in ORDINARY {
        let motion = motion(initial, last, duration, distance);
        let rounding = distance / 2f64.powi(51);
        let mut before = 0.0;
        for i in 0..=5_000 {
            let t = duration * (i as f64 / 5_000.0);
            let here = f(motion.point(b(t)).distance);
            assert!(here >= before - rounding, "{here} after {before}");
            assert!(here <= distance + rounding, "{here} beyond {distance}");
            before = here;
        }
    }
}

#[test]
fn motions_lead_from_zero_to_their_distance() {
    for (initial, last, duration, distance) in ORDINARY {
        let motion = motion(initial, last, duration, distance);
        assert_eq!(f(motion.point(b(0.0)).distance), 0.0);
        let end = f(motion.point(b(duration)).distance);
        assert!((end - distance).abs() <= distance / 2f64.powi(51));
    }
}

#[test]
fn too_short_durations_are_over_before_the_end() {
    let motion = motion(0.0, 0.0, f64::from_bits(1), 8.0);
    let end = f(motion.point(b(f64::from_bits(1))).distance);
    assert!(end < 8.0, "{end}");
}

#[test]
fn speeds_are_never_negative() {
    for (initial, last, duration, distance) in ORDINARY {
        let motion = motion(initial, last, duration, distance);
        for i in 0..=1_000 {
            let speed = f(motion.point(b(duration * (i as f64 / 1_000.0))).speed);
            assert!(speed.is_finite() && speed >= 0.0, "{speed}");
        }
    }
}

#[test]
fn ticks_before_the_route_never_go_back() {
    let route = test_route();
    for start in [f64::NEG_INFINITY, -3.0, 0.0, f64::INFINITY] {
        let mut stream = streamer(&route);
        let moving = |secs: i64| UserLocation {
            speed: Some(Speed { value: b(5.0), accuracy: None }),
            ..fix(secs, 0.0)
        };
        stream.on_route_bound_location(moving(0), b(start));
        stream.advance_to(at(0));
        stream.on_route_bound_location(moving(1), b(start + 5.0));
        let mut last = f64::NEG_INFINITY;
        for tick in [at(0), half_past(0), at(1)] {
            if let Some(shown) = stream.advance_to(tick) {
                let now = f(shown.distance_along_route_meters);
                assert!(now >= last, "went back from {last} to {now}");
                last = now;
            }
        }
    }
}
