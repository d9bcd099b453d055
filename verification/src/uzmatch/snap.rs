//! Projects fixes onto the route, taking distance and course into account.
//!
//! Lengths and bearings on the globe are measured by the caller: a length and a
//! bearing for each segment when the index is built, and for each query the
//! distance from the fix to its projection on each nearby segment.
use vstd::prelude::*;

use crate::arithmetic_laws::law_sum_never_shrinks;
use crate::binary64::{number, Binary64, FULL_TURN, HALF_TURN, ONE, ZERO};
use crate::envelope_tree::{items_of, overlaps, EnvelopeTree, Item};
use crate::models::{CourseOverGround, GeographicCoordinate, UserLocation};
use crate::uzmatch::UzmatchConfig;

verus! {

/// 200.0: a segment farther away than these metres is no candidate.
pub const MAX_ROUTE_LOCATION_BIAS_METERS: u64 = 0x4069_0000_0000_0000;

/// 0.01: an offset within these metres of a segment's end is pinned there.
pub const VERTEX_PIN_EPSILON_METERS: u64 = 0x3f84_7ae1_47ae_147b;

/// 110000.0: a lower bound of the metres in a degree.
pub const METERS_PER_DEGREE: u64 = 0x40fa_db00_0000_0000;

/// -0.5
pub const MINUS_HALF: u64 = 0xbfe0_0000_0000_0000;

/// -180.0
pub const MINUS_HALF_TURN: u64 = 0xc066_8000_0000_0000;

/// The distance between one and the next larger number.
pub const EPSILON: u64 = 0x3cb0_0000_0000_0000;

/// The most candidates that a search keeps, and a temporal frontier holds.
pub const MAX_SNAP_CANDIDATES: usize = 10;

/// A position on the route.
#[derive(Clone, Copy, PartialEq, Eq, Structural, Debug)]
pub struct RoutePosition {
    /// The segment of the route: segment `i` runs from vertex `i` to vertex `i + 1`.
    pub segment_index: u64,
    /// Metres from the segment's first vertex.
    pub segment_offset_meters: Binary64,
    /// Metres from the start of the route.
    pub distance_along_route_meters: Binary64,
    /// The position itself.
    pub coordinates: GeographicCoordinate,
    /// The route's direction there.
    pub course_over_ground: Option<CourseOverGround>,
}

/// A position on the route and how well it explains the fix.
#[derive(Clone, Copy, PartialEq, Eq, Structural, Debug)]
pub struct SnapCandidate {
    /// The position.
    pub route_position: RoutePosition,
    /// The logarithm of how likely the fix is for it.
    pub emission_log_likelihood: Binary64,
}

/// What the caller measures of a segment.
#[derive(Clone, Copy, PartialEq, Eq, Structural, Debug)]
pub struct SegmentMeasure {
    /// Its length on the globe in metres.
    pub length_meters: Binary64,
    /// Its bearing on the globe in degrees, of any turn.
    pub bearing_degrees: Binary64,
    /// The course of that bearing.
    pub course: CourseOverGround,
}

/// A segment of the route with what queries need of it.
#[derive(Clone, Copy, PartialEq, Eq, Structural, Debug)]
pub struct IndexedSegment {
    /// Its first vertex.
    pub start: GeographicCoordinate,
    /// Its last vertex.
    pub end: GeographicCoordinate,
    /// The degrees of longitude that it spans.
    pub delta_x: Binary64,
    /// The degrees of latitude that it spans.
    pub delta_y: Binary64,
    /// The square of its length in degrees.
    pub length_squared: Binary64,
    /// Its length in metres.
    pub length_meters: Binary64,
    /// The metres of route before it.
    pub distance_from_route_start: Binary64,
    /// Its bearing in degrees, from zero up to a full turn.
    pub bearing: Binary64,
    /// The course of its bearing.
    pub course: CourseOverGround,
}

/// The sum of the first `n` lengths, added up in order.
pub open spec fn total_length(lengths: Seq<Binary64>, n: nat) -> Binary64
    decreases n,
{
    if n == 0 {
        number(ZERO)
    } else {
        total_length(lengths, (n - 1) as nat).plus(lengths[n - 1])
    }
}

/// The lengths of measured segments.
pub open spec fn lengths_of(measures: Seq<SegmentMeasure>) -> Seq<Binary64> {
    Seq::new(measures.len(), |i: int| measures[i].length_meters)
}

/// The number of segments of a line with `vertices` vertices.
pub open spec fn segment_count(vertices: nat) -> nat {
    if vertices == 0 {
        0
    } else {
        (vertices - 1) as nat
    }
}

/// Segment `i` of a measured line.
pub open spec fn indexed_segment(
    coords: Seq<GeographicCoordinate>,
    measures: Seq<SegmentMeasure>,
    i: int,
) -> IndexedSegment {
    let delta_x = coords[i + 1].lng.minus(coords[i].lng);
    let delta_y = coords[i + 1].lat.minus(coords[i].lat);
    IndexedSegment {
        start: coords[i],
        end: coords[i + 1],
        delta_x,
        delta_y,
        length_squared: delta_x.times(delta_x).plus(delta_y.times(delta_y)),
        length_meters: measures[i].length_meters,
        distance_from_route_start: total_length(lengths_of(measures), i as nat),
        bearing: measures[i].bearing_degrees.rem_euclid(number(FULL_TURN)),
        course: measures[i].course,
    }
}

/// The segments of a measured line.
pub open spec fn indexed_segments(
    coords: Seq<GeographicCoordinate>,
    measures: Seq<SegmentMeasure>,
) -> Seq<IndexedSegment> {
    Seq::new(measures.len(), |i: int| indexed_segment(coords, measures, i))
}

/// The envelope of a segment, found by the segment's number.
pub open spec fn envelope(segment: IndexedSegment, index: int) -> Item {
    (
        segment.start.lng.min(segment.end.lng).ordinal() as i64,
        segment.start.lat.min(segment.end.lat).ordinal() as i64,
        segment.start.lng.max(segment.end.lng).ordinal() as i64,
        segment.start.lat.max(segment.end.lat).ordinal() as i64,
        index as usize,
    )
}

/// The envelopes of segments.
pub open spec fn envelopes(segments: Seq<IndexedSegment>) -> Seq<Item> {
    Seq::new(segments.len(), |i: int| envelope(segments[i], i))
}

/// The degrees of latitude that a query reaches to either side.
pub open spec fn latitude_reach() -> Binary64 {
    number(MAX_ROUTE_LOCATION_BIAS_METERS).over(number(METERS_PER_DEGREE))
}

/// The degrees of longitude that a query reaches to either side, where a degree of
/// longitude is `longitude_scale` as long as a degree of latitude.
pub open spec fn longitude_reach(longitude_scale: Binary64) -> Binary64 {
    if longitude_scale.at_most(number(EPSILON)) {
        number(HALF_TURN)
    } else {
        number(MAX_ROUTE_LOCATION_BIAS_METERS).over(
            number(METERS_PER_DEGREE).times(longitude_scale),
        ).min(number(HALF_TURN))
    }
}

/// Whether a query reaches across the antimeridian.
pub open spec fn reaches_around(point: GeographicCoordinate, longitude_scale: Binary64) -> bool {
    let reach = longitude_reach(longitude_scale);
    point.lng.minus(reach).less(number(MINUS_HALF_TURN)) || number(HALF_TURN).less(point.lng.plus(reach))
}

/// Whether a segment lies within the reach of a query. One that reaches across the
/// antimeridian takes in every segment.
pub open spec fn is_nearby(
    segment: IndexedSegment,
    index: int,
    point: GeographicCoordinate,
    longitude_scale: Binary64,
) -> bool {
    let reach = longitude_reach(longitude_scale);
    reaches_around(point, longitude_scale) || overlaps(
        envelope(segment, index),
        point.lng.minus(reach).ordinal() as i64,
        point.lat.minus(latitude_reach()).ordinal() as i64,
        point.lng.plus(reach).ordinal() as i64,
        point.lat.plus(latitude_reach()).ordinal() as i64,
    )
}

/// The numbers of the nearby ones among the first `n` segments, in route order.
pub open spec fn nearby_segments(
    segments: Seq<IndexedSegment>,
    point: GeographicCoordinate,
    longitude_scale: Binary64,
    n: nat,
) -> Seq<usize>
    decreases n,
{
    if n == 0 {
        Seq::empty()
    } else {
        let before = nearby_segments(segments, point, longitude_scale, (n - 1) as nat);
        if is_nearby(segments[n - 1], n - 1, point, longitude_scale) {
            before.push((n - 1) as usize)
        } else {
            before
        }
    }
}

/// How far along a segment, from zero to one, a point projects.
pub open spec fn projection_ratio(
    segment: IndexedSegment,
    point: GeographicCoordinate,
) -> Binary64 {
    if number(EPSILON).less(segment.length_squared) {
        point.lng.minus(segment.start.lng).times(segment.delta_x).plus(
            point.lat.minus(segment.start.lat).times(segment.delta_y),
        ).over(segment.length_squared).clamp(number(ZERO), number(ONE))
    } else {
        number(ZERO)
    }
}

/// The projection of a point onto a segment.
pub open spec fn projected(
    segment: IndexedSegment,
    point: GeographicCoordinate,
) -> GeographicCoordinate {
    let t = projection_ratio(segment, point);
    GeographicCoordinate {
        lat: segment.start.lat.plus(t.times(segment.delta_y)),
        lng: segment.start.lng.plus(t.times(segment.delta_x)),
    }
}

/// The smaller angle between two headings, in degrees.
pub open spec fn angle_between(a: Binary64, b: Binary64) -> Binary64 {
    let difference = a.minus(b).rem_euclid(number(FULL_TURN));
    if number(HALF_TURN).less(difference) {
        number(FULL_TURN).minus(difference)
    } else {
        difference
    }
}

/// Minus half the square of an error in standard deviations.
pub open spec fn penalty(error: Binary64, deviation: Binary64) -> Binary64 {
    let scaled = error.over(deviation);
    number(MINUS_HALF).times(scaled.times(scaled))
}

/// Whether the course of a fix counts.
pub open spec fn uses_heading(location: UserLocation, config: UzmatchConfig) -> bool {
    location.speed is Some && config.snap_heading_min_speed_mps.at_most(location.speed->0.value)
        && location.course_over_ground is Some
}

/// How well a segment at a distance explains a fix.
pub open spec fn emission(
    segment: IndexedSegment,
    location: UserLocation,
    config: UzmatchConfig,
    distance: Binary64,
) -> Binary64 {
    let by_distance = penalty(distance, config.snap_position_stddev_m);
    if uses_heading(location, config) {
        let course = Binary64::from_integer(location.course_over_ground->0.degrees as u128);
        by_distance.plus(
            penalty(angle_between(course, segment.bearing), config.snap_heading_stddev_deg),
        )
    } else {
        by_distance
    }
}

/// The candidate that a segment gives for a fix, given the measured distance from
/// the fix to its projection: none where that is too far, and none where the
/// likelihood is not finite.
pub open spec fn candidate(
    segment: IndexedSegment,
    index: usize,
    location: UserLocation,
    config: UzmatchConfig,
    distance: Binary64,
) -> Option<SnapCandidate> {
    let score = emission(segment, location, config, distance);
    if !distance.is_finite() || number(MAX_ROUTE_LOCATION_BIAS_METERS).less(distance)
        || !score.is_finite() {
        None
    } else {
        let offset = projection_ratio(segment, location.coordinates).times(segment.length_meters);
        Some(
            SnapCandidate {
                emission_log_likelihood: score,
                route_position: RoutePosition {
                    segment_index: index as u64,
                    segment_offset_meters: offset,
                    distance_along_route_meters: segment.distance_from_route_start.plus(offset),
                    coordinates: projected(segment, location.coordinates),
                    course_over_ground: Some(segment.course),
                },
            },
        )
    }
}

/// Whether one position comes before another on the route.
pub open spec fn position_before(left: RoutePosition, right: RoutePosition) -> bool {
    left.segment_index < right.segment_index || (left.segment_index == right.segment_index
        && left.segment_offset_meters.total_rank() < right.segment_offset_meters.total_rank())
}

/// The orders in which candidates are kept.
#[derive(Clone, Copy, PartialEq, Eq, Structural, Debug)]
pub enum CandidateOrder {
    /// The likeliest first, then in route order.
    Likelihood,
    /// In route order.
    Ahead,
    /// Against route order.
    Behind,
}

/// Whether one candidate comes before another in an order.
pub open spec fn ranks_before(
    order: CandidateOrder,
    left: SnapCandidate,
    right: SnapCandidate,
) -> bool {
    let likelier = left.emission_log_likelihood.total_rank();
    let rival = right.emission_log_likelihood.total_rank();
    match order {
        CandidateOrder::Likelihood => likelier > rival || (likelier == rival
            && left.route_position.segment_index < right.route_position.segment_index),
        CandidateOrder::Ahead => position_before(left.route_position, right.route_position),
        CandidateOrder::Behind => position_before(right.route_position, left.route_position),
    }
}

/// The number of kept candidates in front of a new one: all up to the first that
/// does not come before it.
pub open spec fn insertion_index(
    order: CandidateOrder,
    kept: Seq<SnapCandidate>,
    new: SnapCandidate,
    from: nat,
) -> nat
    decreases kept.len() - from,
{
    if from < kept.len() && ranks_before(order, kept[from as int], new) {
        insertion_index(order, kept, new, from + 1)
    } else {
        from
    }
}

/// The kept candidates after a new one was put in its place and those too many at
/// the back were dropped.
pub open spec fn inserted(
    order: CandidateOrder,
    kept: Seq<SnapCandidate>,
    new: SnapCandidate,
) -> Seq<SnapCandidate> {
    let index = insertion_index(order, kept, new, 0);
    if index < MAX_SNAP_CANDIDATES {
        let longer = kept.insert(index as int, new);
        if longer.len() > MAX_SNAP_CANDIDATES {
            longer.subrange(0, MAX_SNAP_CANDIDATES as int)
        } else {
            longer
        }
    } else {
        kept
    }
}

/// Whether a candidate is kept in an order: by likelihood without a previous
/// position, and with one ahead of it or behind it.
pub open spec fn belongs(
    order: CandidateOrder,
    new: SnapCandidate,
    previous: Option<RoutePosition>,
) -> bool {
    match order {
        CandidateOrder::Likelihood => previous is None,
        CandidateOrder::Ahead => previous is Some && !position_before(
            new.route_position,
            previous->0,
        ),
        CandidateOrder::Behind => previous is Some && position_before(
            new.route_position,
            previous->0,
        ),
    }
}

/// What is kept in an order of the candidates that the first `n` of the listed
/// segments give.
pub open spec fn gathered(
    segments: Seq<IndexedSegment>,
    location: UserLocation,
    config: UzmatchConfig,
    previous: Option<RoutePosition>,
    indices: Seq<usize>,
    distances: Seq<Binary64>,
    order: CandidateOrder,
    n: nat,
) -> Seq<SnapCandidate>
    decreases n,
{
    if n == 0 {
        Seq::empty()
    } else {
        let kept = gathered(
            segments,
            location,
            config,
            previous,
            indices,
            distances,
            order,
            (n - 1) as nat,
        );
        let index = indices[n - 1];
        match candidate(segments[index as int], index, location, config, distances[n - 1]) {
            Some(new) if belongs(order, new, previous) => inserted(order, kept, new),
            _ => kept,
        }
    }
}

/// Whether a fix has a position that can be searched for.
pub open spec fn searchable(segments: Seq<IndexedSegment>, location: UserLocation) -> bool {
    segments.len() > 0 && location.coordinates.lat.is_finite()
        && location.coordinates.lng.is_finite()
}

/// The numbers of the segments whose distance a query needs.
pub open spec fn measured_segments(
    segments: Seq<IndexedSegment>,
    location: UserLocation,
    longitude_scale: Binary64,
) -> Seq<usize> {
    if searchable(segments, location) {
        nearby_segments(segments, location.coordinates, longitude_scale, segments.len())
    } else {
        Seq::empty()
    }
}

/// The candidates for a fix, given the measured distance to each nearby segment.
/// Without a previous position, the likeliest; with one, the nearest ahead of it on
/// the route and then the nearest behind it.
pub open spec fn candidates_for(
    segments: Seq<IndexedSegment>,
    location: UserLocation,
    config: UzmatchConfig,
    previous: Option<RoutePosition>,
    longitude_scale: Binary64,
    distances: Seq<Binary64>,
) -> Seq<SnapCandidate> {
    let indices = measured_segments(segments, location, longitude_scale);
    let n = indices.len();
    gathered(
        segments,
        location,
        config,
        previous,
        indices,
        distances,
        CandidateOrder::Likelihood,
        n,
    ) + gathered(
        segments,
        location,
        config,
        previous,
        indices,
        distances,
        CandidateOrder::Ahead,
        n,
    ) + gathered(
        segments,
        location,
        config,
        previous,
        indices,
        distances,
        CandidateOrder::Behind,
        n,
    )
}

/// The position of the first of some candidates.
pub open spec fn likeliest_position(candidates: Seq<SnapCandidate>) -> Option<RoutePosition> {
    if candidates.len() > 0 {
        Some(candidates[0].route_position)
    } else {
        None
    }
}

/// Whether numbers are listed in increasing order, each once.
pub open spec fn increasing(list: Seq<usize>) -> bool {
    forall|i: int, j: int| 0 <= i < j < list.len() ==> list[i] < list[j]
}

/// Two increasing lists of the same numbers are equal.
proof fn lemma_increasing_unique(a: Seq<usize>, b: Seq<usize>)
    requires
        increasing(a),
        increasing(b),
        forall|x: usize| a.contains(x) <==> b.contains(x),
    ensures
        a == b,
    decreases a.len(),
{
    if a.len() == 0 {
        if b.len() > 0 {
            assert(b.contains(b[0]));
            assert(a.contains(b[0]));
        }
        assert(a =~= b);
    } else {
        let last = a.last();
        assert(a.contains(last));
        assert(b.contains(last));
        assert(b.contains(b.last()));
        assert(a.contains(b.last()));
        let i = choose|i: int| 0 <= i < a.len() && a[i] == b.last();
        let j = choose|j: int| 0 <= j < b.len() && b[j] == last;
        assert(b.last() == last);
        let a0 = a.drop_last();
        let b0 = b.drop_last();
        assert forall|x: usize| a0.contains(x) implies b0.contains(x) by {
            let k = choose|k: int| 0 <= k < a0.len() && a0[k] == x;
            assert(a[k] == x);
            assert(a.contains(x));
            let m = choose|m: int| 0 <= m < b.len() && b[m] == x;
            assert(b0[m] == x);
        }
        assert forall|x: usize| b0.contains(x) implies a0.contains(x) by {
            let k = choose|k: int| 0 <= k < b0.len() && b0[k] == x;
            assert(b[k] == x);
            assert(b.contains(x));
            let m = choose|m: int| 0 <= m < a.len() && a[m] == x;
            assert(a0[m] == x);
        }
        lemma_increasing_unique(a0, b0);
        assert(a =~= a0.push(last));
        assert(b =~= b0.push(last));
    }
}

/// The nearby segments are listed in increasing order, and are all that are nearby.
pub proof fn lemma_nearby_segments(
    segments: Seq<IndexedSegment>,
    point: GeographicCoordinate,
    longitude_scale: Binary64,
    n: nat,
)
    requires
        n <= segments.len() <= usize::MAX,
    ensures
        increasing(nearby_segments(segments, point, longitude_scale, n)),
        nearby_segments(segments, point, longitude_scale, n).len() <= n,
        forall|i: usize|
            nearby_segments(segments, point, longitude_scale, n).contains(i) <==> i < n
                && is_nearby(segments[i as int], i as int, point, longitude_scale),
    decreases n,
{
    let list = nearby_segments(segments, point, longitude_scale, n);
    if n > 0 {
        let before = nearby_segments(segments, point, longitude_scale, (n - 1) as nat);
        lemma_nearby_segments(segments, point, longitude_scale, (n - 1) as nat);
        if is_nearby(segments[n - 1], n - 1, point, longitude_scale) {
            assert forall|i: int, j: int| 0 <= i < j < list.len() implies list[i] < list[j] by {
                if j == before.len() {
                    assert(before.contains(before[i]));
                }
            }
            assert forall|i: usize|
                list.contains(i) <==> i < n && is_nearby(
                    segments[i as int],
                    i as int,
                    point,
                    longitude_scale,
                ) by {
                if list.contains(i) {
                    let k = choose|k: int| 0 <= k < list.len() && list[k] == i;
                    if k < before.len() {
                        assert(before.contains(before[k]));
                    }
                } else if i < n - 1 && is_nearby(
                    segments[i as int],
                    i as int,
                    point,
                    longitude_scale,
                ) {
                    assert(before.contains(i));
                    let k = choose|k: int| 0 <= k < before.len() && before[k] == i;
                    assert(list[k] == i);
                }
                assert(list[before.len() as int] == n - 1);
            }
        }
    }
}

/// The same numbers in increasing order.
fn sorted_numbers(found: &Vec<usize>) -> (r: Vec<usize>)
    requires
        found@.no_duplicates(),
    ensures
        increasing(r@),
        forall|x: usize| r@.contains(x) <==> found@.contains(x),
{
    let mut sorted: Vec<usize> = Vec::new();
    let mut i: usize = 0;
    while i < found.len()
        invariant
            i <= found.len(),
            found@.no_duplicates(),
            increasing(sorted@),
            forall|x: usize| sorted@.contains(x) <==> found@.subrange(0, i as int).contains(x),
        decreases found.len() - i,
    {
        let new: usize = found[i];
        let ghost known = found@.subrange(0, i as int);
        proof {
            if sorted@.contains(new) {
                let k = choose|k: int| 0 <= k < known.len() && known[k] == new;
                assert(found@[k] == found@[i as int]);
            }
        }
        let mut low: usize = 0;
        let mut high: usize = sorted.len();
        while low < high
            invariant
                low <= high <= sorted.len(),
                increasing(sorted@),
                forall|k: int| 0 <= k < low ==> sorted@[k] < new,
                forall|k: int| high <= k < sorted.len() ==> sorted@[k] >= new,
            decreases high - low,
        {
            let middle: usize = low + (high - low) / 2;
            if sorted[middle] < new {
                low = middle + 1;
            } else {
                high = middle;
            }
        }
        let ghost old_sorted = sorted@;
        sorted.insert(low, new);
        proof {
            assert(sorted@ == old_sorted.insert(low as int, new));
            let more = found@.subrange(0, i + 1);
            assert(more =~= known.push(new));
            assert forall|x: usize| sorted@.contains(x) <==> more.contains(x) by {
                if sorted@.contains(x) {
                    let k = choose|k: int| 0 <= k < sorted@.len() && sorted@[k] == x;
                    if k < low {
                        assert(old_sorted[k] == x);
                        assert(old_sorted.contains(x));
                    } else if k > low {
                        assert(old_sorted[k - 1] == x);
                        assert(old_sorted.contains(x));
                    }
                    if old_sorted.contains(x) {
                        let m = choose|m: int| 0 <= m < known.len() && known[m] == x;
                        assert(more[m] == x);
                    } else {
                        assert(more[i as int] == x);
                    }
                }
                if more.contains(x) {
                    let m = choose|m: int| 0 <= m < more.len() && more[m] == x;
                    if m < i {
                        assert(known[m] == x);
                        assert(known.contains(x));
                        assert(old_sorted.contains(x));
                        let k = choose|k: int| 0 <= k < old_sorted.len() && old_sorted[k] == x;
                        if k < low {
                            assert(sorted@[k] == x);
                        } else {
                            assert(sorted@[k + 1] == x);
                        }
                    } else {
                        assert(sorted@[low as int] == x);
                    }
                }
            }
            assert forall|a: int| 0 <= a < old_sorted.len() implies old_sorted[a] != new by {
                assert(old_sorted.contains(old_sorted[a]));
            }
        }
        i = i + 1;
    }
    assert(found@.subrange(0, i as int) =~= found@);
    sorted
}

/// What a search of the tree finds are the numbers of the overlapping envelopes.
proof fn lemma_found_items(
    segments: Seq<IndexedSegment>,
    found: Seq<Item>,
    ax: i64,
    ay: i64,
    bx: i64,
    by: i64,
)
    requires
        segments.len() <= usize::MAX,
        found.to_multiset() == envelopes(segments).to_multiset().filter(
            |item: Item| overlaps(item, ax, ay, bx, by),
        ),
    ensures
        forall|i: int, j: int| 0 <= i < j < found.len() ==> found[i].4 != found[j].4,
        forall|k: int|
            0 <= k < found.len() ==> (#[trigger] found[k]).4 < segments.len() && overlaps(
                envelope(segments[found[k].4 as int], found[k].4 as int),
                ax,
                ay,
                bx,
                by,
            ),
        forall|i: int|
            0 <= i < segments.len() && overlaps(#[trigger] envelope(segments[i], i), ax, ay, bx, by)
                ==> found.contains(envelope(segments[i], i)),
{
    broadcast use vstd::seq_lib::group_to_multiset_ensures;

    let items = envelopes(segments);
    let hit = |item: Item| overlaps(item, ax, ay, bx, by);
    let all = items.to_multiset();
    assert(items.no_duplicates()) by {
        assert forall|i: int, j: int|
            0 <= i < items.len() && 0 <= j < items.len() && i != j implies items[i] != items[j] by {
            assert(items[i].4 == i && items[j].4 == j);
        }
    }
    items.lemma_multiset_has_no_duplicates();
    assert forall|x: Item| found.to_multiset().contains(x) implies found.to_multiset().count(x)
        == 1 by {
        assert(all.filter(hit).count(x) == if hit(x) {
            all.count(x)
        } else {
            0
        });
        assert(all.contains(x));
    }
    found.lemma_multiset_has_no_duplicates_conv();
    assert forall|k: int| 0 <= k < found.len() implies (#[trigger] found[k]).4 < segments.len()
        && found[k] == envelope(segments[found[k].4 as int], found[k].4 as int) && overlaps(
        found[k],
        ax,
        ay,
        bx,
        by,
    ) by {
        let x = found[k];
        assert(found.contains(x));
        assert(found.to_multiset().count(x) > 0);
        assert(all.filter(hit).count(x) == if hit(x) {
            all.count(x)
        } else {
            0
        });
        assert(items.contains(x));
        let i = choose|i: int| 0 <= i < items.len() && items[i] == x;
        assert(x == envelope(segments[i], i));
        assert(x.4 == i);
    }
    assert forall|i: int, j: int| 0 <= i < j < found.len() implies found[i].4 != found[j].4 by {
        if found[i].4 == found[j].4 {
            assert(found[i] == found[j]);
        }
    }
    assert forall|i: int|
        0 <= i < segments.len() && overlaps(#[trigger] envelope(segments[i], i), ax, ay, bx, by)
        implies found.contains(envelope(segments[i], i)) by {
        let x = envelope(segments[i], i);
        assert(items[i] == x);
        assert(items.contains(x));
        assert(all.count(x) > 0);
        assert(all.filter(hit).count(x) == if hit(x) {
            all.count(x)
        } else {
            0
        });
        assert(found.to_multiset().count(x) > 0);
    }
}

/// The lengths up to each vertex of a line, given those of its segments; the first
/// is zero.
pub fn cumulative_lengths(lengths: &Vec<Binary64>) -> (r: Vec<Binary64>)
    requires
        lengths.len() < usize::MAX,
    ensures
        r.len() == lengths.len() + 1,
        forall|k: int| 0 <= k < r.len() ==> r[k] == total_length(lengths@, k as nat),
{
    let mut total: Binary64 = number(ZERO);
    let mut cumulative: Vec<Binary64> = Vec::new();
    cumulative.push(total);
    let mut i: usize = 0;
    while i < lengths.len()
        invariant
            i <= lengths.len(),
            cumulative.len() == i + 1,
            total == total_length(lengths@, i as nat),
            forall|k: int| 0 <= k <= i ==> cumulative[k] == total_length(lengths@, k as nat),
        decreases lengths.len() - i,
    {
        total = total.plus(lengths[i]);
        cumulative.push(total);
        i = i + 1;
    }
    cumulative
}

/// The smaller angle between two headings, in degrees.
pub fn heading_difference(a: Binary64, b: Binary64) -> (r: Binary64)
    ensures
        r == angle_between(a, b),
{
    let difference: Binary64 = a.minus(b).rem_euclid(number(FULL_TURN));
    if number(HALF_TURN).less(difference) {
        number(FULL_TURN).minus(difference)
    } else {
        difference
    }
}

fn penalty_of(error: Binary64, deviation: Binary64) -> (r: Binary64)
    ensures
        r == penalty(error, deviation),
{
    let scaled: Binary64 = error.over(deviation);
    number(MINUS_HALF).times(scaled.times(scaled))
}

fn precedes(left: RoutePosition, right: RoutePosition) -> (r: bool)
    ensures
        r == position_before(left, right),
{
    left.segment_index < right.segment_index || (left.segment_index == right.segment_index
        && left.segment_offset_meters.totally_before(right.segment_offset_meters))
}

fn ranks_ahead(order: CandidateOrder, left: SnapCandidate, right: SnapCandidate) -> (r: bool)
    ensures
        r == ranks_before(order, left, right),
{
    let mine: Binary64 = left.emission_log_likelihood;
    let theirs: Binary64 = right.emission_log_likelihood;
    match order {
        CandidateOrder::Likelihood => theirs.totally_before(mine) || (!mine.totally_before(theirs)
            && left.route_position.segment_index < right.route_position.segment_index),
        CandidateOrder::Ahead => precedes(left.route_position, right.route_position),
        CandidateOrder::Behind => precedes(right.route_position, left.route_position),
    }
}

fn insert_bounded(
    candidates: &mut Vec<SnapCandidate>,
    candidate: SnapCandidate,
    order: CandidateOrder,
)
    requires
        old(candidates).len() <= MAX_SNAP_CANDIDATES,
    ensures
        final(candidates)@ == inserted(order, old(candidates)@, candidate),
        final(candidates).len() <= MAX_SNAP_CANDIDATES,
{
    let mut index: usize = 0;
    while index < candidates.len() && ranks_ahead(order, candidates[index], candidate)
        invariant
            index <= candidates.len(),
            insertion_index(order, candidates@, candidate, 0) == insertion_index(
                order,
                candidates@,
                candidate,
                index as nat,
            ),
        decreases candidates.len() - index,
    {
        index = index + 1;
    }
    if index < MAX_SNAP_CANDIDATES {
        candidates.insert(index, candidate);
        if candidates.len() > MAX_SNAP_CANDIDATES {
            candidates.truncate(MAX_SNAP_CANDIDATES);
        }
    }
}

/// The segments of a route with a spatial tree over them, built once for a route.
pub struct RouteSnapIndex {
    segments: Vec<IndexedSegment>,
    tree: EnvelopeTree,
}

impl View for RouteSnapIndex {
    type V = Seq<IndexedSegment>;

    closed spec fn view(&self) -> Seq<IndexedSegment> {
        self.segments@
    }
}

impl RouteSnapIndex {
    /// The tree holds the envelope of every segment.
    #[verifier::type_invariant]
    spec fn consistent(&self) -> bool {
        items_of(self.tree) == envelopes(self.segments@).to_multiset()
    }

    /// Indexes a line, given the measures of its segments.
    pub fn new(coords: &Vec<GeographicCoordinate>, measures: &Vec<SegmentMeasure>) -> (r: Self)
        requires
            measures.len() == segment_count(coords.len() as nat),
        ensures
            r@ == indexed_segments(coords@, measures@),
    {
        let ghost lengths = lengths_of(measures@);
        let mut distance_from_route_start: Binary64 = number(ZERO);
        let mut segments: Vec<IndexedSegment> = Vec::new();
        let mut items: Vec<Item> = Vec::new();
        let mut i: usize = 0;
        while i < measures.len()
            invariant
                i <= measures.len(),
                measures.len() == segment_count(coords.len() as nat),
                lengths == lengths_of(measures@),
                distance_from_route_start == total_length(lengths, i as nat),
                segments.len() == i,
                items.len() == i,
                forall|k: int|
                    0 <= k < i ==> segments[k] == #[trigger] indexed_segment(coords@, measures@, k),
                forall|k: int| 0 <= k < i ==> items[k] == #[trigger] envelope(segments[k], k),
                forall|k: int|
                    0 <= k < i ==> (#[trigger] items[k]).0 <= items[k].2 && items[k].1
                        <= items[k].3,
            decreases measures.len() - i,
        {
            let start: GeographicCoordinate = coords[i];
            let end: GeographicCoordinate = coords[i + 1];
            let delta_x: Binary64 = end.lng.minus(start.lng);
            let delta_y: Binary64 = end.lat.minus(start.lat);
            let measure: SegmentMeasure = measures[i];
            let segment: IndexedSegment = IndexedSegment {
                start,
                end,
                delta_x,
                delta_y,
                length_squared: delta_x.times(delta_x).plus(delta_y.times(delta_y)),
                length_meters: measure.length_meters,
                distance_from_route_start,
                bearing: measure.bearing_degrees.rem_euclid(number(FULL_TURN)),
                course: measure.course,
            };
            assert(segment == indexed_segment(coords@, measures@, i as int));
            segments.push(segment);
            items.push(
                (
                    start.lng.min(end.lng).order_key(),
                    start.lat.min(end.lat).order_key(),
                    start.lng.max(end.lng).order_key(),
                    start.lat.max(end.lat).order_key(),
                    i,
                ),
            );
            distance_from_route_start = distance_from_route_start.plus(measure.length_meters);
            i = i + 1;
        }
        let tree: EnvelopeTree = EnvelopeTree::bulk_load(&items);
        assert(items@ =~= envelopes(segments@));
        assert(segments@ =~= indexed_segments(coords@, measures@));
        RouteSnapIndex { segments, tree }
    }

    /// The number of segments.
    pub fn len(&self) -> (r: usize)
        ensures
            r == self@.len(),
    {
        self.segments.len()
    }

    /// A segment by its number.
    pub fn segment(&self, index: usize) -> (r: IndexedSegment)
        requires
            index < self@.len(),
        ensures
            r == self@[index as int],
    {
        self.segments[index]
    }

    /// The segments within the reach of a query, in no particular order. A degree
    /// of longitude at the point is `longitude_scale` as long as one of latitude.
    pub fn candidate_indices(
        &self,
        point: GeographicCoordinate,
        longitude_scale: Binary64,
    ) -> (r: Vec<usize>)
        ensures
            r@.no_duplicates(),
            forall|i: usize|
                r@.contains(i) <==> i < self@.len() && is_nearby(
                    self@[i as int],
                    i as int,
                    point,
                    longitude_scale,
                ),
    {
        proof {
            use_type_invariant(self);
        }
        let latitude_delta: Binary64 = number(MAX_ROUTE_LOCATION_BIAS_METERS).over(
            number(METERS_PER_DEGREE),
        );
        let longitude_delta: Binary64 = if longitude_scale.at_most(number(EPSILON)) {
            number(HALF_TURN)
        } else {
            number(MAX_ROUTE_LOCATION_BIAS_METERS).over(
                number(METERS_PER_DEGREE).times(longitude_scale),
            ).min(number(HALF_TURN))
        };
        let west: Binary64 = point.lng.minus(longitude_delta);
        let east: Binary64 = point.lng.plus(longitude_delta);
        let mut numbers: Vec<usize> = Vec::new();
        let mut i: usize = 0;
        if west.less(number(MINUS_HALF_TURN)) || number(HALF_TURN).less(east) {
            while i < self.segments.len()
                invariant
                    i <= self.segments.len(),
                    numbers.len() == i,
                    forall|k: int| 0 <= k < i ==> numbers[k] == k,
                decreases self.segments.len() - i,
            {
                numbers.push(i);
                i = i + 1;
            }
            assert forall|k: usize| numbers@.contains(k) <==> k < self@.len() by {
                if k < self@.len() {
                    assert(numbers@[k as int] == k);
                }
            }
            return numbers;
        }
        let ax: i64 = west.order_key();
        let ay: i64 = point.lat.minus(latitude_delta).order_key();
        let bx: i64 = east.order_key();
        let by: i64 = point.lat.plus(latitude_delta).order_key();
        let found: Vec<Item> = self.tree.locate_in_envelope_intersecting(ax, ay, bx, by);
        proof {
            assert(self.segments.len() == self.segments@.len());
            lemma_found_items(self.segments@, found@, ax, ay, bx, by);
        }
        while i < found.len()
            invariant
                i <= found.len(),
                numbers.len() == i,
                forall|k: int| 0 <= k < i ==> numbers[k] == (#[trigger] found[k]).4,
            decreases found.len() - i,
        {
            numbers.push(found[i].4);
            i = i + 1;
        }
        assert forall|k: usize|
            numbers@.contains(k) <==> k < self@.len() && is_nearby(
                self@[k as int],
                k as int,
                point,
                longitude_scale,
            ) by {
            if numbers@.contains(k) {
                let m = choose|m: int| 0 <= m < numbers@.len() && numbers@[m] == k;
                assert(found@[m].4 == k);
            }
            if k < self@.len() && is_nearby(self@[k as int], k as int, point, longitude_scale) {
                let x = envelope(self@[k as int], k as int);
                assert(found@.contains(x));
                let m = choose|m: int| 0 <= m < found@.len() && found@[m] == x;
                assert(numbers@[m] == k);
            }
        }
        assert forall|a: int, b: int|
            0 <= a < numbers@.len() && 0 <= b < numbers@.len() && a != b implies numbers@[a]
            != numbers@[b] by {
            assert(numbers@[a] == found@[a].4 && numbers@[b] == found@[b].4);
            if a < b {
                assert(found@[a].4 != found@[b].4);
            } else {
                assert(found@[b].4 != found@[a].4);
            }
        }
        numbers
    }

    /// The segments whose distance from a fix a query needs, in route order.
    pub fn segments_to_measure(
        &self,
        location: &UserLocation,
        longitude_scale: Binary64,
    ) -> (r: Vec<usize>)
        ensures
            r@ == measured_segments(self@, *location, longitude_scale),
            forall|k: int| 0 <= k < r.len() ==> r[k] < self@.len(),
    {
        if self.segments.len() == 0 || !location.coordinates.lat.is_finite()
            || !location.coordinates.lng.is_finite() {
            return Vec::new();
        }
        let found: Vec<usize> = self.candidate_indices(location.coordinates, longitude_scale);
        let sorted: Vec<usize> = sorted_numbers(&found);
        proof {
            let n = self@.len();
            lemma_nearby_segments(self@, location.coordinates, longitude_scale, n);
            lemma_increasing_unique(
                sorted@,
                nearby_segments(self@, location.coordinates, longitude_scale, n),
            );
            assert forall|k: int| 0 <= k < sorted.len() implies sorted[k] < self@.len() by {
                assert(sorted@.contains(sorted@[k]));
            }
        }
        sorted
    }

    /// The projection of a fix onto a segment, to which its distance is measured.
    pub fn projection(&self, index: usize, point: GeographicCoordinate) -> (r: GeographicCoordinate)
        requires
            index < self@.len(),
        ensures
            r == projected(self@[index as int], point),
    {
        let segment: IndexedSegment = self.segments[index];
        let t: Binary64 = self.ratio(index, point);
        GeographicCoordinate {
            lat: segment.start.lat.plus(t.times(segment.delta_y)),
            lng: segment.start.lng.plus(t.times(segment.delta_x)),
        }
    }

    fn ratio(&self, index: usize, point: GeographicCoordinate) -> (r: Binary64)
        requires
            index < self@.len(),
        ensures
            r == projection_ratio(self@[index as int], point),
    {
        let segment: IndexedSegment = self.segments[index];
        if number(EPSILON).less(segment.length_squared) {
            let along_x: Binary64 = point.lng.minus(segment.start.lng).times(segment.delta_x);
            let along_y: Binary64 = point.lat.minus(segment.start.lat).times(segment.delta_y);
            along_x.plus(along_y).over(segment.length_squared).clamp(number(ZERO), number(ONE))
        } else {
            number(ZERO)
        }
    }

    fn candidate_at(
        &self,
        index: usize,
        location: &UserLocation,
        config: &UzmatchConfig,
        distance: Binary64,
    ) -> (r: Option<SnapCandidate>)
        requires
            index < self@.len(),
        ensures
            r == candidate(self@[index as int], index, *location, *config, distance),
    {
        let segment: IndexedSegment = self.segments[index];
        if !distance.is_finite() || number(MAX_ROUTE_LOCATION_BIAS_METERS).less(distance) {
            return None;
        }
        let mut score: Binary64 = penalty_of(distance, config.snap_position_stddev_m);
        if let Some(speed) = location.speed {
            if config.snap_heading_min_speed_mps.at_most(speed.value) {
                if let Some(course) = location.course_over_ground {
                    let degrees: Binary64 = Binary64::from_integer(course.degrees as u128);
                    let delta: Binary64 = heading_difference(degrees, segment.bearing);
                    score = score.plus(penalty_of(delta, config.snap_heading_stddev_deg));
                }
            }
        }
        if !score.is_finite() {
            return None;
        }
        let offset: Binary64 = self.ratio(index, location.coordinates).times(segment.length_meters);
        Some(
            SnapCandidate {
                emission_log_likelihood: score,
                route_position: RoutePosition {
                    segment_index: index as u64,
                    segment_offset_meters: offset,
                    distance_along_route_meters: segment.distance_from_route_start.plus(offset),
                    coordinates: self.projection(index, location.coordinates),
                    course_over_ground: Some(segment.course),
                },
            },
        )
    }

    /// The candidates for a fix relative to a previous position, given the measured
    /// distance to each segment that `segments_to_measure` lists.
    pub fn candidates_with_anchor(
        &self,
        location: &UserLocation,
        config: &UzmatchConfig,
        previous_route_position: Option<RoutePosition>,
        longitude_scale: Binary64,
        distances: &Vec<Binary64>,
    ) -> (r: Vec<SnapCandidate>)
        requires
            distances.len() == measured_segments(self@, *location, longitude_scale).len(),
        ensures
            r@ == candidates_for(
                self@,
                *location,
                *config,
                previous_route_position,
                longitude_scale,
                distances@,
            ),
            r.len() <= 2 * MAX_SNAP_CANDIDATES,
    {
        let indices: Vec<usize> = self.segments_to_measure(location, longitude_scale);
        let mut likeliest: Vec<SnapCandidate> = Vec::new();
        let mut ahead: Vec<SnapCandidate> = Vec::new();
        let mut behind: Vec<SnapCandidate> = Vec::new();
        let mut i: usize = 0;
        while i < indices.len()
            invariant
                i <= indices.len(),
                distances.len() == indices.len(),
                forall|k: int| 0 <= k < indices.len() ==> indices[k] < self@.len(),
                likeliest.len() <= MAX_SNAP_CANDIDATES,
                ahead.len() <= MAX_SNAP_CANDIDATES,
                behind.len() <= MAX_SNAP_CANDIDATES,
                previous_route_position is Some ==> likeliest.len() == 0,
                previous_route_position is None ==> ahead.len() == 0 && behind.len() == 0,
                likeliest@ == gathered(
                    self@,
                    *location,
                    *config,
                    previous_route_position,
                    indices@,
                    distances@,
                    CandidateOrder::Likelihood,
                    i as nat,
                ),
                ahead@ == gathered(
                    self@,
                    *location,
                    *config,
                    previous_route_position,
                    indices@,
                    distances@,
                    CandidateOrder::Ahead,
                    i as nat,
                ),
                behind@ == gathered(
                    self@,
                    *location,
                    *config,
                    previous_route_position,
                    indices@,
                    distances@,
                    CandidateOrder::Behind,
                    i as nat,
                ),
            decreases indices.len() - i,
        {
            if let Some(new) = self.candidate_at(indices[i], location, config, distances[i]) {
                match previous_route_position {
                    Some(previous) => {
                        if precedes(new.route_position, previous) {
                            insert_bounded(&mut behind, new, CandidateOrder::Behind);
                        } else {
                            insert_bounded(&mut ahead, new, CandidateOrder::Ahead);
                        }
                    },
                    None => {
                        insert_bounded(&mut likeliest, new, CandidateOrder::Likelihood);
                    },
                }
            }
            i = i + 1;
        }
        likeliest.append(&mut ahead);
        likeliest.append(&mut behind);
        likeliest
    }

    /// The likeliest candidates for a fix.
    pub fn candidates(
        &self,
        location: &UserLocation,
        config: &UzmatchConfig,
        longitude_scale: Binary64,
        distances: &Vec<Binary64>,
    ) -> (r: Vec<SnapCandidate>)
        requires
            distances.len() == measured_segments(self@, *location, longitude_scale).len(),
        ensures
            r@ == candidates_for(self@, *location, *config, None, longitude_scale, distances@),
    {
        self.candidates_with_anchor(location, config, None, longitude_scale, distances)
    }

    /// The likeliest position of a fix on the route.
    pub fn snap_to_route(
        &self,
        location: &UserLocation,
        config: &UzmatchConfig,
        longitude_scale: Binary64,
        distances: &Vec<Binary64>,
    ) -> (r: Option<RoutePosition>)
        requires
            distances.len() == measured_segments(self@, *location, longitude_scale).len(),
        ensures
            ({
                let found = candidates_for(
                    self@,
                    *location,
                    *config,
                    None,
                    longitude_scale,
                    distances@,
                );
                &&& r == (if found.len() > 0 {
                    Some(found[0].route_position)
                } else {
                    None
                })
                &&& r == likeliest_position(found)
            }),
    {
        let found: Vec<SnapCandidate> = self.candidates(
            location,
            config,
            longitude_scale,
            distances,
        );
        if found.len() > 0 {
            Some(found[0].route_position)
        } else {
            None
        }
    }

    /// The direction in which the route goes on from a position: that of its
    /// segment, or where it is pinned at the segment's end, that of the next segment
    /// with a length. None past the end of the route.
    pub fn bearing_ahead(&self, position: &RoutePosition) -> (r: Option<Binary64>)
        ensures
            r == direction_ahead(self@, *position),
    {
        if position.segment_index >= self.segments.len() as u64 {
            return None;
        }
        let index: usize = position.segment_index as usize;
        let segment: IndexedSegment = self.segments[index];
        let pinned_from: Binary64 = segment.length_meters.minus(number(VERTEX_PIN_EPSILON_METERS));
        if position.segment_offset_meters.less(pinned_from) {
            return Some(segment.bearing);
        }
        let mut i: usize = index + 1;
        while i < self.segments.len()
            invariant
                i <= self.segments.len(),
                direction_ahead(self@, *position) == first_direction(self@, i as nat),
            decreases self.segments.len() - i,
        {
            let next: IndexedSegment = self.segments[i];
            if number(VERTEX_PIN_EPSILON_METERS).less(next.length_meters) {
                return Some(next.bearing);
            }
            i = i + 1;
        }
        None
    }

    /// Whether a position is pinned at either end of its segment.
    pub fn is_pinned_at_vertex(&self, position: &RoutePosition) -> (r: bool)
        ensures
            r == pinned_at_vertex(self@, *position),
    {
        if position.segment_index >= self.segments.len() as u64 {
            return false;
        }
        let segment: IndexedSegment = self.segments[position.segment_index as usize];
        let pinned_from: Binary64 = segment.length_meters.minus(number(VERTEX_PIN_EPSILON_METERS));
        position.segment_offset_meters.at_most(number(VERTEX_PIN_EPSILON_METERS))
            || pinned_from.at_most(position.segment_offset_meters)
    }
}

/// The bearing of the first segment with a length from a number on.
pub open spec fn first_direction(segments: Seq<IndexedSegment>, from: nat) -> Option<Binary64>
    decreases segments.len() - from,
{
    if from >= segments.len() {
        None
    } else if number(VERTEX_PIN_EPSILON_METERS).less(segments[from as int].length_meters) {
        Some(segments[from as int].bearing)
    } else {
        first_direction(segments, from + 1)
    }
}

/// The direction in which the route goes on from a position.
pub open spec fn direction_ahead(
    segments: Seq<IndexedSegment>,
    position: RoutePosition,
) -> Option<Binary64> {
    let index = position.segment_index as int;
    if index >= segments.len() {
        None
    } else if position.segment_offset_meters.less(
        segments[index].length_meters.minus(number(VERTEX_PIN_EPSILON_METERS)),
    ) {
        Some(segments[index].bearing)
    } else {
        first_direction(segments, (index + 1) as nat)
    }
}

/// Whether a position is pinned at either end of its segment.
pub open spec fn pinned_at_vertex(segments: Seq<IndexedSegment>, position: RoutePosition) -> bool {
    let index = position.segment_index as int;
    index < segments.len() && (position.segment_offset_meters.at_most(
        number(VERTEX_PIN_EPSILON_METERS),
    ) || segments[index].length_meters.minus(number(VERTEX_PIN_EPSILON_METERS)).at_most(
        position.segment_offset_meters,
    ))
}

/// A point of a line, and the direction of the line there.
#[derive(Clone, Copy, PartialEq, Eq, Structural, Debug)]
pub struct LinePoint {
    /// The point.
    pub coordinates: GeographicCoordinate,
    /// The bearing of its segment in degrees, from zero up to a full turn.
    pub bearing: Binary64,
    /// The course of that bearing.
    pub course: CourseOverGround,
}

/// The last of the first `n` vertices that does not lie beyond a distance, or the
/// first vertex where all do.
pub open spec fn vertex_at(cumulative: Seq<Binary64>, distance: Binary64, n: nat) -> nat
    decreases n,
{
    if n <= 1 {
        0
    } else if distance.less(cumulative[n - 1]) {
        vertex_at(cumulative, distance, (n - 1) as nat)
    } else {
        (n - 1) as nat
    }
}

/// The point of a line at a distance along it, given the lengths up to its
/// vertices and the measures of its segments. A distance beyond either end leads to
/// that end.
pub open spec fn line_point(
    coords: Seq<GeographicCoordinate>,
    cumulative: Seq<Binary64>,
    measures: Seq<SegmentMeasure>,
    distance: Binary64,
) -> Option<LinePoint> {
    if coords.len() < 2 {
        None
    } else {
        let clamped = distance.clamp(number(ZERO), cumulative.last());
        let vertex = vertex_at(cumulative, clamped, cumulative.len());
        let index = if vertex <= coords.len() - 2 {
            vertex as int
        } else {
            coords.len() - 2
        };
        let a = coords[index];
        let b = coords[index + 1];
        let length = cumulative[index + 1].minus(cumulative[index]).max(number(EPSILON));
        let t = clamped.minus(cumulative[index]).over(length).clamp(number(ZERO), number(ONE));
        Some(
            LinePoint {
                coordinates: GeographicCoordinate {
                    lat: a.lat.plus(t.times(b.lat.minus(a.lat))),
                    lng: a.lng.plus(t.times(b.lng.minus(a.lng))),
                },
                bearing: measures[index].bearing_degrees.rem_euclid(number(FULL_TURN)),
                course: measures[index].course,
            },
        )
    }
}

/// The point of a line at a distance along it.
pub fn point_at_distance(
    coords: &Vec<GeographicCoordinate>,
    cumulative: &Vec<Binary64>,
    measures: &Vec<SegmentMeasure>,
    distance: Binary64,
) -> (r: Option<LinePoint>)
    requires
        coords.len() >= 2 ==> cumulative.len() == coords.len() && measures.len() + 1
            == coords.len(),
    ensures
        r == line_point(coords@, cumulative@, measures@, distance),
{
    if coords.len() < 2 {
        return None;
    }
    let total: Binary64 = cumulative[cumulative.len() - 1];
    let clamped: Binary64 = distance.clamp(number(ZERO), total);
    let mut n: usize = cumulative.len();
    while n > 1 && clamped.less(cumulative[n - 1])
        invariant
            1 <= n <= cumulative.len(),
            vertex_at(cumulative@, clamped, cumulative.len() as nat) == vertex_at(
                cumulative@,
                clamped,
                n as nat,
            ),
        decreases n,
    {
        n = n - 1;
    }
    let vertex: usize = n - 1;
    let index: usize = if vertex <= coords.len() - 2 {
        vertex
    } else {
        coords.len() - 2
    };
    let a: GeographicCoordinate = coords[index];
    let b: GeographicCoordinate = coords[index + 1];
    let start: Binary64 = cumulative[index];
    let length: Binary64 = cumulative[index + 1].minus(start).max(number(EPSILON));
    let t: Binary64 = clamped.minus(start).over(length).clamp(number(ZERO), number(ONE));
    Some(
        LinePoint {
            coordinates: GeographicCoordinate {
                lat: a.lat.plus(t.times(b.lat.minus(a.lat))),
                lng: a.lng.plus(t.times(b.lng.minus(a.lng))),
            },
            bearing: measures[index].bearing_degrees.rem_euclid(number(FULL_TURN)),
            course: measures[index].course,
        },
    )
}

/// Whether kept candidates stand in an order: none comes before an earlier one.
pub open spec fn in_order(order: CandidateOrder, kept: Seq<SnapCandidate>) -> bool {
    forall|i: int, j: int|
        0 <= i < j < kept.len() ==> !ranks_before(order, #[trigger] kept[j], #[trigger] kept[i])
}

/// Whether kept candidates are the best of those offered: every one offered is
/// kept, or the list is full and the last of it does not come after the one left
/// out.
pub open spec fn best_of(
    order: CandidateOrder,
    kept: Seq<SnapCandidate>,
    offered: Set<SnapCandidate>,
) -> bool {
    forall|new: SnapCandidate| #[trigger]
        offered.contains(new) ==> kept.contains(new) || (kept.len() == MAX_SNAP_CANDIDATES
            && !ranks_before(order, new, kept.last()))
}

proof fn lemma_insertion_index(
    order: CandidateOrder,
    kept: Seq<SnapCandidate>,
    new: SnapCandidate,
    from: nat,
)
    requires
        from <= kept.len(),
        forall|i: int| 0 <= i < from ==> ranks_before(order, #[trigger] kept[i], new),
    ensures
        ({
            let index = insertion_index(order, kept, new, from);
            &&& index <= kept.len()
            &&& forall|i: int| 0 <= i < index ==> ranks_before(order, #[trigger] kept[i], new)
            &&& index < kept.len() ==> !ranks_before(order, kept[index as int], new)
        }),
    decreases kept.len() - from,
{
    if from < kept.len() && ranks_before(order, kept[from as int], new) {
        lemma_insertion_index(order, kept, new, from + 1);
    }
}

/// Inserting keeps the candidates in order, keeps at most as many as are kept, and
/// keeps the best of all that were offered.
pub proof fn law_insertion_keeps_the_best(
    order: CandidateOrder,
    kept: Seq<SnapCandidate>,
    new: SnapCandidate,
    offered: Set<SnapCandidate>,
)
    requires
        kept.len() <= MAX_SNAP_CANDIDATES,
        in_order(order, kept),
        best_of(order, kept, offered),
    ensures
        inserted(order, kept, new).len() <= MAX_SNAP_CANDIDATES,
        in_order(order, inserted(order, kept, new)),
        best_of(order, inserted(order, kept, new), offered.insert(new)),
{
    lemma_insertion_index(order, kept, new, 0);
    let index = insertion_index(order, kept, new, 0) as int;
    let after = inserted(order, kept, new);
    if index < MAX_SNAP_CANDIDATES {
        let longer = kept.insert(index, new);
        assert forall|i: int, j: int| 0 <= i < j < longer.len() implies !ranks_before(
            order,
            #[trigger] longer[j],
            #[trigger] longer[i],
        ) by {
            let old_i = if i > index {
                i - 1
            } else {
                i
            };
            let old_j = if j > index {
                j - 1
            } else {
                j
            };
            if i == index {
                // The new one does not come after what stands behind it.
                assert(!ranks_before(order, kept[index], new));
                assert(!ranks_before(order, kept[old_j], kept[index]) || old_j == index);
            } else if j == index {
                assert(ranks_before(order, kept[i], new));
            } else {
                assert(longer[i] == kept[old_i] && longer[j] == kept[old_j]);
            }
        }
        assert forall|x: SnapCandidate| #[trigger]
            offered.insert(new).contains(x) implies after.contains(x) || (after.len()
            == MAX_SNAP_CANDIDATES && !ranks_before(order, x, after.last())) by {
            if x == new {
                assert(longer[index] == new);
                assert(after[index] == new);
            } else if kept.contains(x) {
                let k = choose|k: int| 0 <= k < kept.len() && kept[k] == x;
                let moved = if k >= index {
                    k + 1
                } else {
                    k
                };
                assert(longer[moved] == x);
                if moved < after.len() {
                    assert(after[moved] == x);
                } else {
                    assert(after.last() == longer[MAX_SNAP_CANDIDATES - 1]);
                }
            } else {
                assert(kept.len() == MAX_SNAP_CANDIDATES);
                let last = after.last();
                if index == MAX_SNAP_CANDIDATES - 1 {
                    assert(last == new);
                    assert(!ranks_before(order, kept[index], new));
                    assert(kept.last() == kept[index]);
                } else {
                    assert(last == kept[MAX_SNAP_CANDIDATES - 2]);
                    assert(!ranks_before(order, kept.last(), last));
                }
            }
        }
    } else {
        assert forall|x: SnapCandidate| #[trigger]
            offered.insert(new).contains(x) implies after.contains(x) || (after.len()
            == MAX_SNAP_CANDIDATES && !ranks_before(order, x, after.last())) by {
            if x == new {
                assert(ranks_before(order, kept[MAX_SNAP_CANDIDATES - 1], new));
            }
        }
    }
}

/// The candidates that the first `n` of the listed segments offer to an order.
pub open spec fn offered(
    segments: Seq<IndexedSegment>,
    location: UserLocation,
    config: UzmatchConfig,
    previous: Option<RoutePosition>,
    indices: Seq<usize>,
    distances: Seq<Binary64>,
    order: CandidateOrder,
    n: nat,
) -> Set<SnapCandidate>
    decreases n,
{
    if n == 0 {
        Set::empty()
    } else {
        let before = offered(
            segments,
            location,
            config,
            previous,
            indices,
            distances,
            order,
            (n - 1) as nat,
        );
        let index = indices[n - 1];
        match candidate(segments[index as int], index, location, config, distances[n - 1]) {
            Some(new) if belongs(order, new, previous) => before.insert(new),
            _ => before,
        }
    }
}

/// A search keeps, in order, the best of all candidates that its segments offer,
/// and no more than are kept.
pub proof fn law_search_keeps_the_best(
    segments: Seq<IndexedSegment>,
    location: UserLocation,
    config: UzmatchConfig,
    previous: Option<RoutePosition>,
    indices: Seq<usize>,
    distances: Seq<Binary64>,
    order: CandidateOrder,
    n: nat,
)
    ensures
        ({
            let kept = gathered(
                segments,
                location,
                config,
                previous,
                indices,
                distances,
                order,
                n,
            );
            let all = offered(
                segments,
                location,
                config,
                previous,
                indices,
                distances,
                order,
                n,
            );
            &&& kept.len() <= MAX_SNAP_CANDIDATES
            &&& in_order(order, kept)
            &&& best_of(order, kept, all)
            &&& forall|k: int| 0 <= k < kept.len() ==> all.contains(#[trigger] kept[k])
        }),
    decreases n,
{
    if n > 0 {
        let m = (n - 1) as nat;
        law_search_keeps_the_best(
            segments,
            location,
            config,
            previous,
            indices,
            distances,
            order,
            m,
        );
        let kept = gathered(
            segments,
            location,
            config,
            previous,
            indices,
            distances,
            order,
            m,
        );
        let all = offered(segments, location, config, previous, indices, distances, order, m);
        let index = indices[n - 1];
        match candidate(segments[index as int], index, location, config, distances[n - 1]) {
            Some(new) => {
                if belongs(order, new, previous) {
                    law_insertion_keeps_the_best(order, kept, new, all);
                    lemma_insertion_index(order, kept, new, 0);
                    let place = insertion_index(order, kept, new, 0) as int;
                    let after = inserted(order, kept, new);
                    assert forall|k: int| 0 <= k < after.len() implies all.insert(new).contains(
                        #[trigger] after[k],
                    ) by {
                        if place < MAX_SNAP_CANDIDATES {
                            let longer = kept.insert(place, new);
                            assert(after[k] == longer[k]);
                            if k < place {
                                assert(longer[k] == kept[k]);
                            } else if k > place {
                                assert(longer[k] == kept[k - 1]);
                            }
                        }
                    }
                }
            },
            None => {},
        }
    }
}

/// Along a line whose segments have valid lengths, the length up to a vertex never
/// decreases from vertex to vertex.
pub proof fn law_lengths_never_decrease(lengths: Seq<Binary64>, i: nat, j: nat)
    requires
        i <= j <= lengths.len(),
        forall|k: int|
            0 <= k < lengths.len() ==> !(#[trigger] lengths[k]).is_nan()
                && !lengths[k].is_negative(),
    ensures
        total_length(lengths, i).at_most(total_length(lengths, j)),
        !total_length(lengths, j).is_negative(),
    decreases j,
{
    if j == 0 {
    } else if i == j {
        law_lengths_never_decrease(lengths, (i - 1) as nat, (j - 1) as nat);
        law_sum_never_shrinks(total_length(lengths, (j - 1) as nat), lengths[j - 1]);
    } else {
        law_lengths_never_decrease(lengths, i, (j - 1) as nat);
        law_sum_never_shrinks(total_length(lengths, (j - 1) as nat), lengths[j - 1]);
    }
}

} // verus!
