use geo::{Bearing, Distance, Geodesic, Haversine, Point};
use uznav::binary64::{number, Binary64};
use uznav::models::{CourseOverGround, GeographicCoordinate, Speed, UserLocation};
use uznav::time::Timestamp;
use uznav::uzmatch::snap::{
    cumulative_lengths, heading_difference, point_at_distance, RoutePosition, RouteSnapIndex,
    SegmentMeasure, SnapCandidate, MAX_SNAP_CANDIDATES,
};
use uznav::uzmatch::UzmatchConfig;

fn b(x: f64) -> Binary64 {
    number(x.to_bits())
}

fn f(x: Binary64) -> f64 {
    f64::from_bits(x.bits)
}

fn coordinate(lat: f64, lng: f64) -> GeographicCoordinate {
    GeographicCoordinate { lat: b(lat), lng: b(lng) }
}

fn point(c: GeographicCoordinate) -> Point {
    Point::new(f(c.lng), f(c.lat))
}

fn haversine(from: GeographicCoordinate, to: GeographicCoordinate) -> f64 {
    Haversine.distance(point(from), point(to))
}

fn course(degrees: f64) -> CourseOverGround {
    CourseOverGround { degrees: degrees.round() as u16, accuracy: None }
}

fn measures(coords: &[GeographicCoordinate]) -> Vec<SegmentMeasure> {
    coords
        .windows(2)
        .map(|pair| {
            let bearing = Geodesic.bearing(point(pair[0]), point(pair[1]));
            SegmentMeasure {
                length_meters: b(haversine(pair[0], pair[1])),
                bearing_degrees: b(bearing),
                course: course(bearing.rem_euclid(360.0)),
            }
        })
        .collect()
}

fn longitude_scale(location: &UserLocation) -> Binary64 {
    b(f(location.coordinates.lat).to_radians().cos().abs())
}

fn distances(index: &RouteSnapIndex, location: &UserLocation) -> Vec<Binary64> {
    index
        .segments_to_measure(location, longitude_scale(location))
        .into_iter()
        .map(|i| {
            b(haversine(location.coordinates, index.projection(i, location.coordinates)))
        })
        .collect()
}

fn fix(lat: f64, lng: f64) -> UserLocation {
    UserLocation {
        coordinates: coordinate(lat, lng),
        horizontal_accuracy: b(5.0),
        course_over_ground: None,
        timestamp: Timestamp { seconds: 1_700_000_000, nanos: 0 },
        speed: None,
    }
}

fn index(coords: &[GeographicCoordinate]) -> RouteSnapIndex {
    RouteSnapIndex::new(&coords.to_vec(), &measures(coords))
}

fn cumulative(coords: &[GeographicCoordinate]) -> Vec<Binary64> {
    cumulative_lengths(&measures(coords).iter().map(|m| m.length_meters).collect())
}

fn snap_to_route(
    location: &UserLocation,
    coords: &[GeographicCoordinate],
    config: &UzmatchConfig,
) -> Option<RoutePosition> {
    let index = index(coords);
    index.snap_to_route(
        location,
        config,
        longitude_scale(location),
        &distances(&index, location),
    )
}

fn candidates(
    index: &RouteSnapIndex,
    location: &UserLocation,
    config: &UzmatchConfig,
) -> Vec<SnapCandidate> {
    index.candidates(location, config, longitude_scale(location), &distances(index, location))
}

fn route_coords() -> Vec<GeographicCoordinate> {
    vec![coordinate(0.0, 0.0), coordinate(0.0, 0.01)]
}

fn carriageways() -> Vec<GeographicCoordinate> {
    vec![
        coordinate(0.0, 0.0),
        coordinate(0.0, 0.01),
        coordinate(0.0001, 0.01),
        coordinate(0.0001, 0.0),
    ]
}

#[test]
fn snaps_to_closest_point_without_heading() {
    let coords = route_coords();
    let cum = cumulative(&coords);
    let loc = fix(0.0002, 0.005);
    let position = snap_to_route(&loc, &coords, &UzmatchConfig::default()).unwrap();
    assert_eq!(position.segment_index, 0);
    assert!(f(position.coordinates.lat).abs() < 1e-9);
    assert!((f(position.coordinates.lng) - 0.005).abs() < 1e-9);
    let total = f(*cum.last().unwrap());
    assert!((f(position.distance_along_route_meters) - total / 2.0).abs() < total * 0.02);
}

#[test]
fn heading_disambiguates_parallel_carriageway() {
    let coords = carriageways();
    let config = UzmatchConfig::default();
    let loc = UserLocation {
        speed: Some(Speed { value: b(10.0), accuracy: None }),
        course_over_ground: Some(course(90.0)),
        ..fix(0.00005, 0.005)
    };
    let position = snap_to_route(&loc, &coords, &config).unwrap();
    assert_eq!(
        position.segment_index, 0,
        "eastbound heading must pick the eastbound carriageway"
    );

    let loc_west = UserLocation { course_over_ground: Some(course(270.0)), ..loc };
    let position = snap_to_route(&loc_west, &coords, &config).unwrap();
    assert_eq!(
        position.segment_index, 2,
        "westbound heading must pick the westbound carriageway"
    );
}

#[test]
fn heading_ignored_below_min_speed() {
    let coords = carriageways();
    let config = UzmatchConfig::default();
    let loc = UserLocation {
        speed: Some(Speed { value: b(2.0), accuracy: None }),
        course_over_ground: Some(course(90.0)),
        ..fix(0.00008, 0.005)
    };
    let position = snap_to_route(&loc, &coords, &config).unwrap();
    assert_eq!(position.segment_index, 2);
}

#[test]
fn heading_difference_wraps() {
    assert_eq!(heading_difference(b(350.0), b(10.0)), b(20.0));
    assert_eq!(heading_difference(b(10.0), b(350.0)), b(20.0));
    assert_eq!(heading_difference(b(90.0), b(270.0)), b(180.0));
}

#[test]
fn route_index_rejects_locations_outside_vendor_bias() {
    let coords = route_coords();
    assert!(snap_to_route(&fix(0.01, 0.005), &coords, &UzmatchConfig::default()).is_none());
}

#[test]
fn invalid_emission_scale_fails_closed() {
    let coords = route_coords();
    let config = UzmatchConfig { snap_position_stddev_m: b(0.0), ..UzmatchConfig::default() };
    assert!(candidates(&index(&coords), &fix(0.0, 0.005), &config).is_empty());
}

#[test]
fn route_index_prunes_a_long_route_to_local_segments() {
    let coords: Vec<GeographicCoordinate> =
        (0..=10_000).map(|i| coordinate(0.0, i as f64 * 0.0001)).collect();
    let route_index = index(&coords);
    let location = fix(0.0, 0.5);
    let found = route_index.candidate_indices(location.coordinates, longitude_scale(&location));

    assert!(found.contains(&4_999));
    assert!(found.contains(&5_000));
    assert!(
        found.len() < 100,
        "expected a local candidate set, got {} of {} segments",
        found.len(),
        route_index.len()
    );
    assert!(
        candidates(&route_index, &location, &UzmatchConfig::default()).len()
            <= MAX_SNAP_CANDIDATES
    );
}

#[test]
fn anchored_candidate_sides_use_route_position_at_duplicate_vertices() {
    let point = coordinate(0.0, 0.0);
    let coords = vec![point; 26];
    let route_index = index(&coords);
    let location = fix(0.0, 0.0);
    let anchor = RoutePosition {
        segment_index: 15,
        segment_offset_meters: b(0.0),
        distance_along_route_meters: b(0.0),
        coordinates: point,
        course_over_ground: None,
    };

    let found = route_index.candidates_with_anchor(
        &location,
        &UzmatchConfig::default(),
        Some(anchor),
        longitude_scale(&location),
        &distances(&route_index, &location),
    );
    let segment_indices = found
        .iter()
        .map(|candidate| candidate.route_position.segment_index)
        .collect::<Vec<_>>();

    assert_eq!(segment_indices.len(), MAX_SNAP_CANDIDATES * 2);
    assert_eq!(&segment_indices[..10], &(15_u64..25).collect::<Vec<_>>());
    assert_eq!(&segment_indices[10..], &(5_u64..15).rev().collect::<Vec<_>>());
}

#[test]
fn point_at_distance_interpolates() {
    let coords = route_coords();
    let measured = measures(&coords);
    let cum = cumulative(&coords);
    let total = f(*cum.last().unwrap());
    let half = point_at_distance(&coords, &cum, &measured, b(total / 2.0)).unwrap();
    assert!((f(half.coordinates.lng) - 0.005).abs() < 1e-6);
    assert!((f(half.bearing) - 90.0).abs() < 0.5);
    let end = point_at_distance(&coords, &cum, &measured, b(total + 100.0)).unwrap();
    assert!((f(end.coordinates.lng) - 0.01).abs() < 1e-9);
}

fn position(segment_index: u64, offset: f64) -> RoutePosition {
    RoutePosition {
        segment_index,
        segment_offset_meters: b(offset),
        distance_along_route_meters: b(0.0),
        coordinates: coordinate(0.0, 0.0),
        course_over_ground: None,
    }
}

fn corner() -> RouteSnapIndex {
    index(&[
        coordinate(0.0, 0.0),
        coordinate(0.0, 0.001),
        coordinate(0.0, 0.001),
        coordinate(0.001, 0.001),
    ])
}

#[test]
fn heading_departure_past_step_end_uses_next_step_bearing() {
    let index = corner();
    let east_length = f(index.segment(0).length_meters);

    let interior = position(0, east_length / 2.0);
    assert!((f(index.bearing_ahead(&interior).unwrap()) - 90.0).abs() < 0.5);

    let at_end = position(0, east_length);
    assert!(f(index.bearing_ahead(&at_end).unwrap()).abs() < 0.5);

    let at_start = position(2, 0.0);
    assert!(f(index.bearing_ahead(&at_start).unwrap()).abs() < 0.5);

    let route_end = position(2, f(index.segment(2).length_meters));
    assert_eq!(index.bearing_ahead(&route_end), None);
}

#[test]
fn positions_near_either_end_are_pinned() {
    let index = corner();
    let length = f(index.segment(0).length_meters);
    assert!(index.is_pinned_at_vertex(&position(0, 0.0)));
    assert!(index.is_pinned_at_vertex(&position(0, 0.009)));
    assert!(!index.is_pinned_at_vertex(&position(0, 1.0)));
    assert!(!index.is_pinned_at_vertex(&position(0, length - 1.0)));
    assert!(index.is_pinned_at_vertex(&position(0, length - 0.009)));
    assert!(index.is_pinned_at_vertex(&position(0, length)));
    assert!(index.is_pinned_at_vertex(&position(1, 0.0)));
    assert!(!index.is_pinned_at_vertex(&position(3, 0.0)));
}

#[test]
fn an_empty_line_has_no_segments() {
    let empty = index(&[]);
    assert_eq!(empty.len(), 0);
    assert!(candidates(&empty, &fix(0.0, 0.0), &UzmatchConfig::default()).is_empty());
    let single = index(&[coordinate(0.0, 0.0)]);
    assert_eq!(single.len(), 0);
    let line = vec![coordinate(0.0, 0.0)];
    assert!(point_at_distance(&line, &cumulative(&line), &measures(&line), b(0.0)).is_none());
}

#[test]
fn a_query_is_answered_by_the_segments_around_it() {
    let coords: Vec<GeographicCoordinate> =
        (0..=50).map(|i| coordinate(i as f64 * 0.001, 10.0)).collect();
    let route_index = index(&coords);
    let location = fix(0.02, 10.0);
    let mut found = route_index.candidate_indices(location.coordinates, longitude_scale(&location));
    found.sort_unstable();
    assert_eq!(found, vec![18, 19, 20, 21]);
    assert_eq!(
        route_index.segments_to_measure(&location, longitude_scale(&location)),
        vec![18, 19, 20, 21]
    );
}

#[test]
fn a_query_across_the_antimeridian_takes_every_segment() {
    let coords = vec![
        coordinate(0.0, 179.9999),
        coordinate(0.0, -179.9999),
        coordinate(1.0, -170.0),
    ];
    let route_index = index(&coords);
    let location = fix(0.0, 180.0);
    assert_eq!(
        route_index.segments_to_measure(&location, longitude_scale(&location)),
        vec![0, 1]
    );
}

#[test]
fn undefined_coordinates_have_no_candidates() {
    let coords = route_coords();
    let route_index = index(&coords);
    for location in [fix(f64::NAN, 0.0), fix(0.0, f64::INFINITY)] {
        assert!(route_index
            .segments_to_measure(&location, longitude_scale(&location))
            .is_empty());
        assert!(candidates(&route_index, &location, &UzmatchConfig::default()).is_empty());
    }
}

#[test]
fn cumulative_lengths_start_at_zero_and_grow() {
    let coords = carriageways();
    let cum: Vec<f64> = cumulative(&coords).into_iter().map(f).collect();
    assert_eq!(cum[0], 0.0);
    let mut total = 0.0;
    for (i, pair) in coords.windows(2).enumerate() {
        total += haversine(pair[0], pair[1]);
        assert_eq!(cum[i + 1], total);
        assert!(cum[i + 1] >= cum[i]);
    }
}

#[test]
fn the_emission_follows_the_distance() {
    let coords = route_coords();
    let location = fix(0.0001, 0.005);
    let route_index = index(&coords);
    let found = candidates(&route_index, &location, &UzmatchConfig::default());
    assert_eq!(found.len(), 1);
    let distance = haversine(location.coordinates, route_index.projection(0, location.coordinates));
    let expected = -0.5 * (distance / 8.0).powi(2);
    assert_eq!(f(found[0].emission_log_likelihood), expected);
    assert_eq!(found[0].route_position.course_over_ground, Some(course(90.0)));
}
