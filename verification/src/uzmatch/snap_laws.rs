//! What holds of projecting fixes onto the route, from what goes in to what comes out.
use vstd::prelude::*;

use crate::binary64::{number, Binary64};
use crate::models::{GeographicCoordinate, UserLocation};
use crate::uzmatch::snap::{
    angle_between, belongs, candidate, candidates_for, direction_ahead, emission, first_direction,
    gathered, indexed_segment, indexed_segments, inserted, insertion_index, is_nearby,
    latitude_reach, law_search_keeps_the_best, lemma_nearby_segments, lengths_of,
    likeliest_position, line_point, longitude_reach, measured_segments, pinned_at_vertex,
    position_before, projected, projection_ratio, ranks_before, reaches_around, segment_count,
    total_length, vertex_at, CandidateOrder, IndexedSegment, RoutePosition, SegmentMeasure,
    SnapCandidate,
};
use crate::uzmatch::UzmatchConfig;

verus! {

/// The length up to a vertex is that up to the vertex before it and the segment between; up
/// to the first vertex it is nothing. A line has a segment less than vertices.
pub proof fn law_lengths_add_up(lengths: Seq<Binary64>, n: nat)
    ensures
        total_length(lengths, 0) == number(0),
        total_length(lengths, n + 1) == total_length(lengths, n).plus(lengths[n as int]),
        segment_count(0) == 0,
        segment_count(n + 1) == n,
{
}

/// Segment `i` runs from vertex `i` to the next one, with the measures made of it, and starts
/// at the length of all segments before it.
pub proof fn law_segments_run_between_vertices(
    coords: Seq<GeographicCoordinate>,
    measures: Seq<SegmentMeasure>,
    i: int,
)
    requires
        0 <= i < measures.len(),
    ensures
        ({
            let segments = indexed_segments(coords, measures);
            let segment = segments[i];
            &&& segments.len() == measures.len()
            &&& segment.start == coords[i]
            &&& segment.end == coords[i + 1]
            &&& segment.delta_x == coords[i + 1].lng.minus(coords[i].lng)
            &&& segment.delta_y == coords[i + 1].lat.minus(coords[i].lat)
            &&& segment.length_squared == segment.delta_x.times(segment.delta_x).plus(
                segment.delta_y.times(segment.delta_y),
            )
            &&& segment.length_meters == measures[i].length_meters
            &&& segment.course == measures[i].course
            &&& segment.bearing == measures[i].bearing_degrees.rem_euclid(
                number(0x4076_8000_0000_0000),
            )
            &&& i == 0 ==> segment.distance_from_route_start == number(0)
            &&& i > 0 ==> segment.distance_from_route_start == segments[i
                - 1].distance_from_route_start.plus(segments[i - 1].length_meters)
        }),
{
    assert(indexed_segments(coords, measures)[i] == indexed_segment(coords, measures, i));
    if i > 0 {
        assert(lengths_of(measures)[i - 1] == measures[i - 1].length_meters);
        assert(total_length(lengths_of(measures), i as nat) == total_length(
            lengths_of(measures),
            (i - 1) as nat,
        ).plus(lengths_of(measures)[i - 1]));
    }
}

/// A query reaches two hundred metres of at least 110 kilometres to a degree: in latitude to
/// that share of a degree, in longitude to more where its degrees are shorter, and at most
/// half a turn. It reaches around where that crosses the antimeridian.
pub proof fn law_queries_reach_two_hundred_metres(
    point: GeographicCoordinate,
    longitude_scale: Binary64,
)
    ensures
        ({
            let metres = number(0x4069_0000_0000_0000);
            let degree = number(0x40fa_db00_0000_0000);
            let half_turn = number(0x4066_8000_0000_0000);
            let is_at_a_pole = longitude_scale.at_most(number(0x3cb0_0000_0000_0000));
            let reach = longitude_reach(longitude_scale);
            &&& latitude_reach() == metres.over(degree)
            &&& is_at_a_pole ==> reach == half_turn
            &&& !is_at_a_pole ==> reach == metres.over(degree.times(longitude_scale)).min(half_turn)
            &&& reaches_around(point, longitude_scale) <==> point.lng.minus(reach).less(
                number(0xc066_8000_0000_0000),
            ) || half_turn.less(point.lng.plus(reach))
        }),
{
}

/// A segment is nearby where the query reaches around, or where its span of longitudes and
/// its span of latitudes both meet those that the query reaches.
pub proof fn law_nearby_segments_meet_the_reach(
    segment: IndexedSegment,
    index: int,
    point: GeographicCoordinate,
    longitude_scale: Binary64,
)
    requires
        !reaches_around(point, longitude_scale),
        ({
            let reach = longitude_reach(longitude_scale);
            &&& point.lng.minus(reach).ordinal() <= point.lng.plus(reach).ordinal()
            &&& point.lat.minus(latitude_reach()).ordinal() <= point.lat.plus(
                latitude_reach(),
            ).ordinal()
        }),
    ensures
        ({
            let reach = longitude_reach(longitude_scale);
            let rise = latitude_reach();
            let west = segment.start.lng.min(segment.end.lng);
            let east = segment.start.lng.max(segment.end.lng);
            let south = segment.start.lat.min(segment.end.lat);
            let north = segment.start.lat.max(segment.end.lat);
            is_nearby(segment, index, point, longitude_scale) <==> {
                &&& point.lng.minus(reach).ordinal() <= east.ordinal()
                &&& west.ordinal() <= point.lng.plus(reach).ordinal()
                &&& point.lat.minus(rise).ordinal() <= north.ordinal()
                &&& south.ordinal() <= point.lat.plus(rise).ordinal()
            }
        }),
{
}

/// A query that reaches around takes in every segment.
pub proof fn law_reaching_around_takes_in_all(
    segment: IndexedSegment,
    index: int,
    point: GeographicCoordinate,
    longitude_scale: Binary64,
)
    requires
        reaches_around(point, longitude_scale),
    ensures
        is_nearby(segment, index, point, longitude_scale),
{
}

/// The segments to measure are all that are nearby and no others, in route order; none for a
/// fix without a finite position.
pub proof fn law_nearby_segments_are_measured(
    segments: Seq<IndexedSegment>,
    location: UserLocation,
    longitude_scale: Binary64,
    index: usize,
)
    requires
        segments.len() <= usize::MAX,
    ensures
        ({
            let measured = measured_segments(segments, location, longitude_scale);
            &&& measured.contains(index) <==> {
                &&& index < segments.len()
                &&& location.coordinates.lat.is_finite()
                &&& location.coordinates.lng.is_finite()
                &&& is_nearby(
                    segments[index as int],
                    index as int,
                    location.coordinates,
                    longitude_scale,
                )
            }
            &&& forall|i: int, j: int| 0 <= i < j < measured.len() ==> measured[i] < measured[j]
        }),
{
    lemma_nearby_segments(segments, location.coordinates, longitude_scale, segments.len());
}

/// A point projects onto a segment at its component along the segment, held between the
/// ends; onto one without an extent at its start.
pub proof fn law_points_project_onto_segments(segment: IndexedSegment, point: GeographicCoordinate)
    ensures
        ({
            let ratio = projection_ratio(segment, point);
            let along = point.lng.minus(segment.start.lng).times(segment.delta_x).plus(
                point.lat.minus(segment.start.lat).times(segment.delta_y),
            ).over(segment.length_squared);
            let has_extent = number(0x3cb0_0000_0000_0000).less(segment.length_squared);
            let zero = number(0);
            let one = number(0x3ff0_0000_0000_0000);
            &&& !has_extent ==> ratio == zero
            &&& has_extent && zero.at_most(along) && along.at_most(one) ==> ratio == along
            &&& has_extent && along.less(zero) ==> ratio == zero
            &&& has_extent && one.less(along) ==> ratio == one
            &&& !has_extent || !along.is_nan() ==> zero.at_most(ratio) && ratio.at_most(one)
            &&& projected(segment, point).lat == segment.start.lat.plus(
                ratio.times(segment.delta_y),
            )
            &&& projected(segment, point).lng == segment.start.lng.plus(
                ratio.times(segment.delta_x),
            )
        }),
{
}

/// The angle between two headings is the difference in one turn, or what is missing to the
/// full turn where that is less.
pub proof fn law_angles_take_the_shorter_way(a: Binary64, b: Binary64)
    ensures
        ({
            let full_turn = number(0x4076_8000_0000_0000);
            let half_turn = number(0x4066_8000_0000_0000);
            let difference = a.minus(b).rem_euclid(full_turn);
            &&& half_turn.less(difference) ==> angle_between(a, b) == full_turn.minus(difference)
            &&& !half_turn.less(difference) ==> angle_between(a, b) == difference
        }),
{
}

/// How well a segment explains a fix is minus half the square of the distance in its standard
/// deviations, and the same of the angle between the course and the segment where the fix has
/// a course and is fast enough for it to count.
pub proof fn law_candidates_are_scored_by_distance_and_course(
    segment: IndexedSegment,
    location: UserLocation,
    config: UzmatchConfig,
    distance: Binary64,
)
    ensures
        ({
            let minus_half = number(0xbfe0_0000_0000_0000);
            let x = distance.over(config.snap_position_stddev_m);
            let by_distance = minus_half.times(x.times(x));
            let score = emission(segment, location, config, distance);
            match (location.speed, location.course_over_ground) {
                (Some(speed), Some(course)) => {
                    let degrees = Binary64::from_integer(course.degrees as u128);
                    let y = angle_between(degrees, segment.bearing).over(
                        config.snap_heading_stddev_deg,
                    );
                    let counts = config.snap_heading_min_speed_mps.at_most(speed.value);
                    &&& counts ==> score == by_distance.plus(minus_half.times(y.times(y)))
                    &&& !counts ==> score == by_distance
                },
                _ => score == by_distance,
            }
        }),
{
}

/// A segment gives a candidate exactly where its measured distance is finite and at most two
/// hundred metres, and its score is finite. The candidate lies at the projection.
pub proof fn law_segments_give_candidates_within_reach(
    segment: IndexedSegment,
    index: usize,
    location: UserLocation,
    config: UzmatchConfig,
    distance: Binary64,
)
    ensures
        ({
            let given = candidate(segment, index, location, config, distance);
            let score = emission(segment, location, config, distance);
            let ratio = projection_ratio(segment, location.coordinates);
            &&& given is Some <==> distance.is_finite() && !number(0x4069_0000_0000_0000).less(
                distance,
            ) && score.is_finite()
            &&& given is Some ==> {
                let position = given->0.route_position;
                &&& given->0.emission_log_likelihood == score
                &&& position.segment_index == index
                &&& position.segment_offset_meters == ratio.times(segment.length_meters)
                &&& position.distance_along_route_meters
                    == segment.distance_from_route_start.plus(position.segment_offset_meters)
                &&& position.coordinates == projected(segment, location.coordinates)
                &&& position.course_over_ground == Some(segment.course)
            }
        }),
{
}

/// Positions stand in route order by segment, and within a segment by their offset.
pub proof fn law_positions_stand_in_route_order(left: RoutePosition, right: RoutePosition)
    ensures
        left.segment_index < right.segment_index ==> position_before(left, right)
            && !position_before(right, left),
        left.segment_index == right.segment_index ==> (position_before(left, right)
            <==> left.segment_offset_meters.total_rank()
            < right.segment_offset_meters.total_rank()),
{
}

/// By likelihood the likelier candidate comes first, and of two as likely the one on the
/// earlier segment; ahead the one earlier on the route, behind the one later on it.
pub proof fn law_candidates_are_ranked(left: SnapCandidate, right: SnapCandidate)
    ensures
        ({
            let l = left.emission_log_likelihood.total_rank();
            let r = right.emission_log_likelihood.total_rank();
            &&& l > r ==> ranks_before(CandidateOrder::Likelihood, left, right) && !ranks_before(
                CandidateOrder::Likelihood,
                right,
                left,
            )
            &&& l == r ==> (ranks_before(CandidateOrder::Likelihood, left, right)
                <==> left.route_position.segment_index < right.route_position.segment_index)
            &&& ranks_before(CandidateOrder::Ahead, left, right) <==> position_before(
                left.route_position,
                right.route_position,
            )
            &&& ranks_before(CandidateOrder::Behind, left, right) <==> position_before(
                right.route_position,
                left.route_position,
            )
        }),
{
}

/// Without a previous position every candidate counts by likelihood; with one, every
/// candidate counts either ahead of it or, where it lies before it, behind it.
pub proof fn law_every_candidate_counts_once(new: SnapCandidate, previous: RoutePosition)
    ensures
        belongs(CandidateOrder::Likelihood, new, None),
        !belongs(CandidateOrder::Ahead, new, None),
        !belongs(CandidateOrder::Behind, new, None),
        !belongs(CandidateOrder::Likelihood, new, Some(previous)),
        belongs(CandidateOrder::Behind, new, Some(previous)) <==> position_before(
            new.route_position,
            previous,
        ),
        belongs(CandidateOrder::Ahead, new, Some(previous)) <==> !position_before(
            new.route_position,
            previous,
        ),
{
}

/// What no candidate belongs to keeps none.
proof fn lemma_nothing_gathered(
    segments: Seq<IndexedSegment>,
    location: UserLocation,
    config: UzmatchConfig,
    previous: Option<RoutePosition>,
    indices: Seq<usize>,
    distances: Seq<Binary64>,
    order: CandidateOrder,
    n: nat,
)
    requires
        forall|new: SnapCandidate| !belongs(order, new, previous),
    ensures
        gathered(segments, location, config, previous, indices, distances, order, n).len() == 0,
    decreases n,
{
    if n > 0 {
        lemma_nothing_gathered(
            segments,
            location,
            config,
            previous,
            indices,
            distances,
            order,
            (n - 1) as nat,
        );
    }
}

/// Without a previous position the candidates are the likeliest of the measured segments.
/// With one they are the nearest ahead of it, and after those the nearest behind it.
pub proof fn law_candidates_are_those_of_the_measured_segments(
    segments: Seq<IndexedSegment>,
    location: UserLocation,
    config: UzmatchConfig,
    previous: Option<RoutePosition>,
    longitude_scale: Binary64,
    distances: Seq<Binary64>,
)
    ensures
        ({
            let found = candidates_for(
                segments,
                location,
                config,
                previous,
                longitude_scale,
                distances,
            );
            let measured = measured_segments(segments, location, longitude_scale);
            let n = measured.len();
            &&& previous is None ==> found == gathered(
                segments,
                location,
                config,
                None,
                measured,
                distances,
                CandidateOrder::Likelihood,
                n,
            )
            &&& previous is Some ==> found == gathered(
                segments,
                location,
                config,
                previous,
                measured,
                distances,
                CandidateOrder::Ahead,
                n,
            ) + gathered(
                segments,
                location,
                config,
                previous,
                measured,
                distances,
                CandidateOrder::Behind,
                n,
            )
        }),
{
    let measured = measured_segments(segments, location, longitude_scale);
    let n = measured.len();
    let likeliest = CandidateOrder::Likelihood;
    let ahead = CandidateOrder::Ahead;
    let behind = CandidateOrder::Behind;
    if previous is None {
        lemma_nothing_gathered(
            segments,
            location,
            config,
            previous,
            measured,
            distances,
            ahead,
            n,
        );
        lemma_nothing_gathered(
            segments,
            location,
            config,
            previous,
            measured,
            distances,
            behind,
            n,
        );
    } else {
        lemma_nothing_gathered(
            segments,
            location,
            config,
            previous,
            measured,
            distances,
            likeliest,
            n,
        );
    }
    let found = candidates_for(segments, location, config, previous, longitude_scale, distances);
    let by_likelihood = gathered(
        segments,
        location,
        config,
        previous,
        measured,
        distances,
        likeliest,
        n,
    );
    let in_front = gathered(
        segments,
        location,
        config,
        previous,
        measured,
        distances,
        ahead,
        n,
    );
    let at_the_back = gathered(
        segments,
        location,
        config,
        previous,
        measured,
        distances,
        behind,
        n,
    );
    assert(found =~= by_likelihood + in_front + at_the_back);
    if previous is None {
        assert(found =~= by_likelihood);
    } else {
        assert(found =~= in_front + at_the_back);
    }
}

/// Of the measured segments each gives its candidate at its own distance: the list after one
/// more segment is the list before it, with the segment's candidate put in where it belongs.
pub proof fn law_candidates_are_gathered_one_by_one(
    segments: Seq<IndexedSegment>,
    location: UserLocation,
    config: UzmatchConfig,
    previous: Option<RoutePosition>,
    indices: Seq<usize>,
    distances: Seq<Binary64>,
    order: CandidateOrder,
    n: nat,
)
    ensures
        ({
            let before = gathered(
                segments,
                location,
                config,
                previous,
                indices,
                distances,
                order,
                n,
            );
            let after = gathered(
                segments,
                location,
                config,
                previous,
                indices,
                distances,
                order,
                n + 1,
            );
            let index = indices[n as int];
            let given = candidate(
                segments[index as int],
                index,
                location,
                config,
                distances[n as int],
            );
            let counts = given is Some && belongs(order, given->0, previous);
            &&& n == 0 ==> before.len() == 0
            &&& counts ==> after == inserted(order, before, given->0)
            &&& !counts ==> after == before
        }),
{
}

/// Where a list of candidates is not full, a new one is put behind all that come before it
/// and in front of the rest, and none is dropped; a full list drops its last one.
pub proof fn law_a_new_candidate_is_put_in_its_place(
    order: CandidateOrder,
    kept: Seq<SnapCandidate>,
    new: SnapCandidate,
)
    requires
        kept.len() <= 10,
    ensures
        ({
            let place = insertion_index(order, kept, new, 0) as int;
            let after = inserted(order, kept, new);
            &&& place >= 10 ==> after == kept
            &&& place < 10 && kept.len() < 10 ==> after == kept.insert(place, new)
            &&& place < 10 && kept.len() == 10 ==> after == kept.insert(place, new).drop_last()
        }),
{
    lemma_place(order, kept, new, 0);
    let place = insertion_index(order, kept, new, 0) as int;
    if place < 10 && kept.len() == 10 {
        let longer = kept.insert(place, new);
        assert(longer.subrange(0, 10) =~= longer.drop_last());
    }
}

/// A new candidate's place is within the list or right behind it.
proof fn lemma_place(
    order: CandidateOrder,
    kept: Seq<SnapCandidate>,
    new: SnapCandidate,
    from: nat,
)
    requires
        from <= kept.len(),
    ensures
        from <= insertion_index(order, kept, new, from) <= kept.len(),
    decreases kept.len() - from,
{
    if from < kept.len() && ranks_before(order, kept[from as int], new) {
        lemma_place(order, kept, new, from + 1);
    }
}

/// The first segment of some length has its direction found.
proof fn lemma_first_direction(segments: Seq<IndexedSegment>, from: nat, next: nat)
    requires
        from <= next <= segments.len(),
        forall|i: int|
            from <= i < next ==> !number(0x3f84_7ae1_47ae_147b).less(
                (#[trigger] segments[i]).length_meters,
            ),
        next < segments.len() ==> number(0x3f84_7ae1_47ae_147b).less(
            segments[next as int].length_meters,
        ),
    ensures
        first_direction(segments, from) == (if next < segments.len() {
            Some(segments[next as int].bearing)
        } else {
            None
        }),
    decreases next - from,
{
    if from < next {
        assert(!number(0x3f84_7ae1_47ae_147b).less(segments[from as int].length_meters));
        lemma_first_direction(segments, from + 1, next);
    }
}

/// From within a segment, a centimetre or more before its end, the route goes on in the
/// segment's direction. From its end it goes on in that of the next segment longer than a
/// centimetre, and in none where there is no such segment.
pub proof fn law_the_route_goes_on_in_the_next_direction(
    segments: Seq<IndexedSegment>,
    position: RoutePosition,
    next: nat,
)
    requires
        position.segment_index < next <= segments.len(),
        forall|i: int|
            position.segment_index < i < next ==> !number(0x3f84_7ae1_47ae_147b).less(
                (#[trigger] segments[i]).length_meters,
            ),
        next < segments.len() ==> number(0x3f84_7ae1_47ae_147b).less(
            segments[next as int].length_meters,
        ),
    ensures
        ({
            let segment = segments[position.segment_index as int];
            let is_within = position.segment_offset_meters.less(
                segment.length_meters.minus(number(0x3f84_7ae1_47ae_147b)),
            );
            let direction = direction_ahead(segments, position);
            &&& is_within ==> direction == Some(segment.bearing)
            &&& !is_within && next < segments.len() ==> direction == Some(
                segments[next as int].bearing,
            )
            &&& !is_within && next == segments.len() ==> direction is None
        }),
{
    lemma_first_direction(segments, (position.segment_index + 1) as nat, next);
}

/// A position is pinned at a vertex exactly where it is on the route and within a centimetre
/// of either end of its segment.
pub proof fn law_positions_are_pinned_within_a_centimetre(
    segments: Seq<IndexedSegment>,
    position: RoutePosition,
)
    ensures
        pinned_at_vertex(segments, position) <==> {
            &&& position.segment_index < segments.len()
            &&& {
                ||| position.segment_offset_meters.at_most(number(0x3f84_7ae1_47ae_147b))
                ||| segments[position.segment_index as int].length_meters.minus(
                    number(0x3f84_7ae1_47ae_147b),
                ).at_most(position.segment_offset_meters)
            }
        },
        position.segment_index >= segments.len() ==> direction_ahead(segments, position) is None,
{
}

/// The last vertex that does not lie beyond a distance is the one found.
proof fn lemma_vertex_at(cumulative: Seq<Binary64>, distance: Binary64, n: nat, vertex: nat)
    requires
        vertex < n <= cumulative.len(),
        vertex == 0 || !distance.less(cumulative[vertex as int]),
        forall|i: int| vertex < i < n ==> distance.less(#[trigger] cumulative[i]),
    ensures
        vertex_at(cumulative, distance, n) == vertex,
    decreases n,
{
    if n > vertex + 1 {
        assert(distance.less(cumulative[n - 1]));
        lemma_vertex_at(cumulative, distance, (n - 1) as nat, vertex);
    }
}

/// The point of a line at a distance lies on the segment from the last vertex that is not
/// beyond it, at the share of the segment's length that the distance is beyond that vertex,
/// and has the segment's direction. A distance beyond an end is taken for the end, and a line
/// without two vertices has no points.
pub proof fn law_a_line_is_walked_by_its_lengths(
    coords: Seq<GeographicCoordinate>,
    cumulative: Seq<Binary64>,
    measures: Seq<SegmentMeasure>,
    distance: Binary64,
    vertex: nat,
)
    requires
        coords.len() >= 2,
        cumulative.len() == coords.len(),
        vertex < coords.len(),
        ({
            let held = distance.clamp(number(0), cumulative.last());
            &&& vertex == 0 || !held.less(cumulative[vertex as int])
            &&& forall|i: int| vertex < i < coords.len() ==> held.less(#[trigger] cumulative[i])
        }),
    ensures
        ({
            let told = line_point(coords, cumulative, measures, distance);
            let held = distance.clamp(number(0), cumulative.last());
            let i = if vertex == coords.len() - 1 {
                vertex - 1
            } else {
                vertex as int
            };
            let length = cumulative[i + 1].minus(cumulative[i]).max(
                number(0x3cb0_0000_0000_0000),
            );
            let share = held.minus(cumulative[i]).over(length).clamp(
                number(0),
                number(0x3ff0_0000_0000_0000),
            );
            &&& told is Some
            &&& told->0.coordinates.lat == coords[i].lat.plus(
                share.times(coords[i + 1].lat.minus(coords[i].lat)),
            )
            &&& told->0.coordinates.lng == coords[i].lng.plus(
                share.times(coords[i + 1].lng.minus(coords[i].lng)),
            )
            &&& told->0.bearing == measures[i].bearing_degrees.rem_euclid(
                number(0x4076_8000_0000_0000),
            )
            &&& told->0.course == measures[i].course
        }),
{
    let held = distance.clamp(number(0), cumulative.last());
    lemma_vertex_at(cumulative, held, cumulative.len(), vertex);
}

/// A line has a point at a distance exactly where it has two vertices.
pub proof fn law_a_line_takes_two_vertices(
    coords: Seq<GeographicCoordinate>,
    cumulative: Seq<Binary64>,
    measures: Seq<SegmentMeasure>,
    distance: Binary64,
)
    ensures
        line_point(coords, cumulative, measures, distance) is Some <==> coords.len() >= 2,
{
}

/// A fix is snapped to the likeliest of its candidates: no candidate of its segments has a
/// higher rank by likelihood. It is snapped to none exactly where no segment gives one.
pub proof fn law_fixes_are_snapped_to_the_likeliest(
    segments: Seq<IndexedSegment>,
    location: UserLocation,
    config: UzmatchConfig,
    longitude_scale: Binary64,
    distances: Seq<Binary64>,
)
    ensures
        ({
            let found = candidates_for(
                segments,
                location,
                config,
                None,
                longitude_scale,
                distances,
            );
            let snapped = likeliest_position(found);
            &&& snapped is Some <==> found.len() > 0
            &&& snapped is Some ==> snapped->0 == found[0].route_position
            &&& forall|k: int|
                0 <= k < found.len() ==> (#[trigger] found[k]).emission_log_likelihood.total_rank()
                    <= found[0].emission_log_likelihood.total_rank()
        }),
{
    let measured = measured_segments(segments, location, longitude_scale);
    law_candidates_are_those_of_the_measured_segments(
        segments,
        location,
        config,
        None,
        longitude_scale,
        distances,
    );
    law_search_keeps_the_best(
        segments,
        location,
        config,
        None,
        measured,
        distances,
        CandidateOrder::Likelihood,
        measured.len(),
    );
}

} // verus!
