use std::sync::Arc;

use geo::{Distance, Haversine, Point};
use uznav::binary64::{number, Binary64};
use uznav::models::{BoundingBox, GeographicCoordinate, Route, RouteStep};
use uznav::step_progress::StepProgressIndex;
use uznav::uzmatch::snap::RoutePosition;

fn b(x: f64) -> Binary64 {
    number(x.to_bits())
}

fn f(x: Binary64) -> f64 {
    f64::from_bits(x.bits)
}

/// A position from longitude and latitude.
fn at(lng: f64, lat: f64) -> GeographicCoordinate {
    GeographicCoordinate { lat: b(lat), lng: b(lng) }
}

fn haversine(from: GeographicCoordinate, to: GeographicCoordinate) -> f64 {
    Haversine.distance(Point::new(f(from.lng), f(from.lat)), Point::new(f(to.lng), f(to.lat)))
}

fn lengths(line: &[GeographicCoordinate]) -> Vec<Binary64> {
    line.windows(2).map(|pair| b(haversine(pair[0], pair[1]))).collect()
}

fn step(geometry: Vec<GeographicCoordinate>) -> Arc<RouteStep> {
    let distance: f64 = lengths(&geometry).into_iter().map(f).sum();
    Arc::new(RouteStep { geometry, distance: b(distance), duration: b(0.0), key: 0 })
}

fn route_along(geometry: Vec<GeographicCoordinate>, steps: Vec<Arc<RouteStep>>) -> Route {
    Route {
        bbox: BoundingBox { sw: at(0.0, 0.0), ne: at(1.0, 1.0) },
        geometry,
        distance: b(0.0),
        waypoints: vec![],
        steps,
    }
}

fn aligned_route(step_coordinates: Vec<Vec<GeographicCoordinate>>) -> Route {
    let steps: Vec<Arc<RouteStep>> = step_coordinates.into_iter().map(step).collect();
    let geometry = steps
        .iter()
        .enumerate()
        .flat_map(|(i, step)| step.geometry.iter().skip(usize::from(i > 0)).copied())
        .collect();
    route_along(geometry, steps)
}

fn index(route: &Route) -> Option<StepProgressIndex> {
    StepProgressIndex::new(route, &lengths(&route.geometry))
}

fn route_position(segment_index: u64, segment_offset_meters: f64) -> RoutePosition {
    RoutePosition {
        segment_index,
        segment_offset_meters: b(segment_offset_meters),
        distance_along_route_meters: b(0.0),
        coordinates: at(0.0, 0.0),
        course_over_ground: None,
    }
}

#[test]
fn maps_route_segment_to_the_current_step() {
    let route = aligned_route(vec![
        vec![at(0.0, 0.0), at(0.00001, 0.0), at(0.00002, 0.0)],
        vec![at(0.00002, 0.0), at(0.00003, 0.0), at(0.00004, 0.0)],
    ]);
    let index = index(&route).expect("aligned route must be indexed");

    let position = index
        .locate(route_position(3, 0.0), 1)
        .expect("global segment 3 belongs to the second current step");

    assert_eq!(position.current_step_geometry_index, 1);
    assert!((f(position.distance_to_next_maneuver) - 1.11195).abs() < 0.01);
}

#[test]
fn repeated_coordinates_are_resolved_by_segment_identity() {
    let route = aligned_route(vec![
        vec![at(0.0, 0.0), at(0.00001, 0.0), at(0.0, 0.0)],
        vec![at(0.0, 0.0), at(0.0, 0.00001)],
    ]);
    let index = index(&route).expect("aligned loop must be indexed");

    let position = index
        .locate(route_position(2, 0.0), 1)
        .expect("segment identity must select the second step");

    assert_eq!(position.current_step_geometry_index, 0);
}

#[test]
fn rejects_route_candidate_gaps_instead_of_guessing() {
    let steps = vec![
        step(vec![at(0.0, 0.0), at(0.00001, 0.0)]),
        step(vec![at(0.00002, 0.0), at(0.00003, 0.0)]),
    ];
    let route = route_along(
        vec![at(0.0, 0.0), at(0.00001, 0.0), at(0.00002, 0.0), at(0.00003, 0.0)],
        steps,
    );

    assert!(index(&route).is_none());
}

#[test]
fn match_past_step_end_clamps_to_the_maneuver() {
    let route = aligned_route(vec![
        vec![at(0.0, 0.0), at(0.00001, 0.0)],
        vec![at(0.00001, 0.0), at(0.00002, 0.0)],
    ]);
    let index = index(&route).expect("aligned route must be indexed");

    let position = index
        .locate(route_position(1, 0.5), 2)
        .expect("a match past the current step's end is the maneuver, not a fallback");

    assert_eq!(position.current_step_geometry_index, 0);
    assert_eq!(f(position.distance_to_next_maneuver), 0.0);
}

#[test]
fn does_not_map_a_match_from_another_step() {
    let route = aligned_route(vec![
        vec![at(0.0, 0.0), at(0.00001, 0.0)],
        vec![at(0.00001, 0.0), at(0.00002, 0.0)],
    ]);
    let index = index(&route).expect("aligned route must be indexed");

    assert!(index.locate(route_position(0, 0.0), 1).is_none());
}

#[test]
fn accepts_a_segment_endpoint_after_a_long_prefix() {
    let coordinates =
        (0..10_001).map(|point_index| at(point_index as f64 * 0.00001, 0.0)).collect::<Vec<_>>();
    let route = aligned_route(vec![coordinates]);
    let index = index(&route).expect("aligned route must be indexed");
    let segment_index = 4_999usize;
    let segment_offset =
        haversine(route.geometry[segment_index], route.geometry[segment_index + 1]);

    assert!(index.locate(route_position(segment_index as u64, segment_offset), 1).is_some());
}

#[test]
fn one_point_arrival_step_does_not_disable_prior_steps() {
    let mut route = aligned_route(vec![vec![at(0.0, 0.0), at(0.00001, 0.0), at(0.00002, 0.0)]]);
    let end = *route.geometry.last().expect("route has an endpoint");
    route.steps.push(Arc::new(RouteStep {
        geometry: vec![end],
        distance: b(0.0),
        duration: b(0.0),
        key: 0,
    }));

    let index = index(&route).expect("terminal point step must not disable preceding step index");

    assert!(index.locate(route_position(0, 0.0), 2).is_some());
    assert!(
        index.locate(route_position(1, 0.0), 1).is_none(),
        "a zero-segment arrival step is not located"
    );
}

#[test]
fn routes_that_cannot_be_aligned_are_not_indexed() {
    assert!(index(&route_along(vec![], vec![])).is_none());
    assert!(index(&route_along(vec![at(0.0, 0.0)], vec![])).is_none());
    let line = vec![at(0.0, 0.0), at(0.00001, 0.0), at(0.00002, 0.0)];
    assert!(index(&route_along(line.clone(), vec![step(vec![])])).is_none());
    assert!(index(&route_along(line.clone(), vec![step(line[..2].to_vec())])).is_none());
    assert!(index(&route_along(line[..2].to_vec(), vec![step(line.clone())])).is_none());
    assert!(index(&route_along(line.clone(), vec![step(line)])).is_some());
}

#[test]
fn positions_off_the_segment_are_not_located() {
    let route = aligned_route(vec![vec![at(0.0, 0.0), at(0.00001, 0.0), at(0.00002, 0.0)]]);
    let index = index(&route).unwrap();
    let length = haversine(route.geometry[0], route.geometry[1]);
    assert!(index.locate(route_position(0, length / 2.0), 1).is_some());
    assert!(index.locate(route_position(0, -0.1), 1).is_none());
    assert!(index.locate(route_position(0, length + 0.1), 1).is_none());
    assert!(index.locate(route_position(0, f64::NAN), 1).is_none());
    assert!(index.locate(route_position(2, 0.0), 1).is_none());
    assert!(index.locate(route_position(0, 0.0), 0).is_none());
    assert!(index.locate(route_position(0, 0.0), 2).is_none());
}

#[test]
fn the_distance_ahead_is_the_rest_of_the_step() {
    let route = aligned_route(vec![
        vec![at(0.0, 0.0), at(0.00001, 0.0), at(0.00003, 0.0)],
        vec![at(0.00003, 0.0), at(0.00004, 0.0)],
    ]);
    let index = index(&route).unwrap();
    let first = haversine(route.geometry[0], route.geometry[1]);
    let second = haversine(route.geometry[1], route.geometry[2]);
    let position = index.locate(route_position(0, 0.25), 2).unwrap();
    assert_eq!(position.current_step_geometry_index, 0);
    assert_eq!(f(position.distance_to_next_maneuver), (0.0 + first + second) - 0.0 - 0.25);
}
