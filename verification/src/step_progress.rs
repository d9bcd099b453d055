//! Progress within a step from a position on the route.
use std::sync::Arc;

use vstd::prelude::*;

use crate::binary64::{number, Binary64, ZERO};
use crate::lists::copied;
use crate::models::{
    same_line, same_position, same_stretch, GeographicCoordinate, Route, RouteStep,
};
use crate::uzmatch::snap::{cumulative_lengths, segment_count, total_length, RoutePosition};

verus! {

/// Where a position on the route is within the current step.
#[derive(Clone, Copy, PartialEq, Eq, Structural, Debug)]
pub struct IndexedStepPosition {
    /// The segment of the step.
    pub current_step_geometry_index: u64,
    /// Metres to the end of the step.
    pub distance_to_next_maneuver: Binary64,
}

/// The segments of the route that a step takes up.
#[derive(Clone, Copy, PartialEq, Eq, Structural, Debug)]
pub struct IndexedStep {
    /// Its first segment.
    pub first_route_segment: usize,
    /// The segment after its last one.
    pub end_route_segment: usize,
    /// Metres from the start of the route to the end of the step.
    pub distance_at_end: Binary64,
}

/// The number of segments before step `k`.
pub open spec fn segments_before(steps: Seq<Arc<RouteStep>>, k: nat) -> nat
    decreases k,
{
    if k == 0 {
        0
    } else {
        segments_before(steps, (k - 1) as nat) + segment_count(steps[k - 1].geometry@.len())
    }
}

/// Whether step `k` has the positions of the route's line from where the steps before
/// it end.
pub open spec fn step_fits(
    line: Seq<GeographicCoordinate>,
    steps: Seq<Arc<RouteStep>>,
    k: int,
) -> bool {
    let first = segments_before(steps, k as nat);
    let geometry = steps[k].geometry@;
    geometry.len() > 0 && first + geometry.len() <= line.len() && same_line(
        line.subrange(first as int, (first + geometry.len()) as int),
        geometry,
    )
}

/// Whether the lines of the steps, end to end, are the line of the route.
pub open spec fn aligned(line: Seq<GeographicCoordinate>, steps: Seq<Arc<RouteStep>>) -> bool {
    &&& steps.len() > 0
    &&& line.len() > 0
    &&& forall|k: int| 0 <= k < steps.len() ==> #[trigger] step_fits(line, steps, k)
    &&& segments_before(steps, steps.len()) + 1 == line.len()
}

/// Step `k` on a route with segments of given lengths.
pub open spec fn indexed_step(
    lengths: Seq<Binary64>,
    steps: Seq<Arc<RouteStep>>,
    k: int,
) -> IndexedStep {
    let end = segments_before(steps, (k + 1) as nat);
    IndexedStep {
        first_route_segment: segments_before(steps, k as nat) as usize,
        end_route_segment: end as usize,
        distance_at_end: total_length(lengths, end),
    }
}

/// The lengths of a route's segments, and the steps that take them up.
pub struct StepExtents {
    /// The length of each segment of the route.
    pub lengths: Seq<Binary64>,
    /// The steps.
    pub steps: Seq<IndexedStep>,
}

/// The extents of steps on a route with segments of given lengths.
pub open spec fn extents(lengths: Seq<Binary64>, steps: Seq<Arc<RouteStep>>) -> StepExtents {
    StepExtents {
        lengths,
        steps: Seq::new(steps.len(), |k: int| indexed_step(lengths, steps, k)),
    }
}

impl StepExtents {
    /// Where a position is within the current step, the first of those that remain.
    ///
    /// Past the end of the step the maneuver is reached. A position before the step,
    /// off the route, or off its own segment is not within the step.
    pub open spec fn located(self, position: RoutePosition, remaining: nat) -> Option<
        IndexedStepPosition,
    > {
        let step = self.steps[self.steps.len() - remaining];
        let segment = position.segment_index as int;
        let offset = position.segment_offset_meters;
        let distance = step.distance_at_end.minus(
            total_length(self.lengths, segment as nat),
        ).minus(offset);
        if remaining == 0 || remaining > self.steps.len() || segment < step.first_route_segment
            || segment >= self.lengths.len() {
            None
        } else if segment >= step.end_route_segment {
            Some(
                IndexedStepPosition {
                    current_step_geometry_index: if step.end_route_segment
                        > step.first_route_segment {
                        (step.end_route_segment - step.first_route_segment - 1) as u64
                    } else {
                        0
                    },
                    distance_to_next_maneuver: number(ZERO),
                },
            )
        } else if !offset.is_finite() || offset.less(number(ZERO)) || self.lengths[segment].less(
            offset,
        ) || !distance.is_finite() || distance.less(number(ZERO)) {
            None
        } else {
            Some(
                IndexedStepPosition {
                    current_step_geometry_index: (segment - step.first_route_segment) as u64,
                    distance_to_next_maneuver: distance,
                },
            )
        }
    }
}

/// For a route whose steps are aligned with it: which segments of the route each step
/// takes up, and how far along the route it ends.
#[derive(Debug)]
pub struct StepProgressIndex {
    route_vertex_distances: Vec<Binary64>,
    route_segment_lengths: Vec<Binary64>,
    steps: Vec<IndexedStep>,
}

impl View for StepProgressIndex {
    type V = StepExtents;

    closed spec fn view(&self) -> StepExtents {
        StepExtents { lengths: self.route_segment_lengths@, steps: self.steps@ }
    }
}

impl StepProgressIndex {
    #[verifier::type_invariant]
    spec fn is_consistent(self) -> bool {
        let lengths = self.route_segment_lengths@;
        &&& self.route_vertex_distances@.len() == lengths.len() + 1
        &&& forall|k: int|
            0 <= k < self.route_vertex_distances@.len() ==> self.route_vertex_distances@[k]
                == total_length(lengths, k as nat)
        &&& forall|k: int|
            0 <= k < self.steps@.len() ==> (#[trigger] self.steps@[k]).first_route_segment
                <= self.steps@[k].end_route_segment && self.steps@[k].end_route_segment
                <= lengths.len()
    }

    /// Indexes the steps of a route, given the lengths of its segments. None where the
    /// steps are not aligned with the route.
    pub fn new(route: &Route, segment_lengths: &Vec<Binary64>) -> (r: Option<Self>)
        requires
            segment_lengths.len() == segment_count(route.geometry@.len()),
        ensures
            r is Some <==> aligned(route.geometry@, route.steps@),
            r is Some ==> r->0@ == extents(segment_lengths@, route.steps@),
    {
        if route.steps.len() == 0 || route.geometry.len() == 0 {
            return None;
        }
        let ghost line = route.geometry@;
        let ghost parts = route.steps@;
        let route_vertex_distances: Vec<Binary64> = cumulative_lengths(segment_lengths);
        let mut first_route_segment: usize = 0;
        let mut steps: Vec<IndexedStep> = Vec::new();
        let mut i: usize = 0;
        while i < route.steps.len()
            invariant
                i <= route.steps.len(),
                line == route.geometry@,
                parts == route.steps@,
                line.len() > 0,
                segment_lengths.len() == segment_count(line.len()),
                route_vertex_distances.len() == segment_lengths.len() + 1,
                forall|k: int|
                    0 <= k < route_vertex_distances.len() ==> route_vertex_distances[k]
                        == total_length(segment_lengths@, k as nat),
                first_route_segment == segments_before(parts, i as nat),
                first_route_segment < line.len(),
                steps.len() == i,
                forall|k: int| 0 <= k < i ==> #[trigger] step_fits(line, parts, k),
                forall|k: int|
                    0 <= k < i ==> #[trigger] steps[k] == indexed_step(segment_lengths@, parts, k),
                forall|k: int|
                    0 <= k < i ==> (#[trigger] steps[k]).first_route_segment
                        <= steps[k].end_route_segment <= segment_lengths.len(),
            decreases route.steps.len() - i,
        {
            let geometry: &Vec<GeographicCoordinate> = &route.steps[i].geometry;
            if geometry.len() == 0 || geometry.len() > route.geometry.len() - first_route_segment {
                assert(!step_fits(line, parts, i as int));
                return None;
            }
            if !same_stretch(&route.geometry, first_route_segment, geometry) {
                assert(!step_fits(line, parts, i as int));
                return None;
            }
            let end_route_segment: usize = first_route_segment + (geometry.len() - 1);
            assert(end_route_segment == segments_before(parts, (i + 1) as nat));
            assert(step_fits(line, parts, i as int));
            steps.push(
                IndexedStep {
                    first_route_segment,
                    end_route_segment,
                    distance_at_end: route_vertex_distances[end_route_segment],
                },
            );
            first_route_segment = end_route_segment;
            i = i + 1;
        }
        if first_route_segment + 1 != route.geometry.len() {
            return None;
        }
        assert(steps@ =~= extents(segment_lengths@, parts).steps);
        Some(
            StepProgressIndex {
                route_vertex_distances,
                route_segment_lengths: copied(segment_lengths),
                steps,
            },
        )
    }

    /// Where a position is within the current step, the first of those that remain.
    pub fn locate(&self, route_position: RoutePosition, remaining_steps_len: usize) -> (r: Option<
        IndexedStepPosition,
    >)
        ensures
            r == self@.located(route_position, remaining_steps_len as nat),
    {
        proof {
            use_type_invariant(self);
        }
        if remaining_steps_len == 0 || remaining_steps_len > self.steps.len() {
            return None;
        }
        let step: IndexedStep = self.steps[self.steps.len() - remaining_steps_len];
        if route_position.segment_index >= self.route_segment_lengths.len() as u64 {
            return None;
        }
        let route_segment: usize = route_position.segment_index as usize;
        if route_segment < step.first_route_segment {
            return None;
        }
        if route_segment >= step.end_route_segment {
            let segments: usize = step.end_route_segment - step.first_route_segment;
            return Some(
                IndexedStepPosition {
                    current_step_geometry_index: if segments > 0 {
                        (segments - 1) as u64
                    } else {
                        0
                    },
                    distance_to_next_maneuver: number(ZERO),
                },
            );
        }
        let distance_at_segment_start: Binary64 = self.route_vertex_distances[route_segment];
        let segment_length: Binary64 = self.route_segment_lengths[route_segment];
        let segment_offset: Binary64 = route_position.segment_offset_meters;
        if !segment_offset.is_finite() || segment_offset.less(number(ZERO)) || segment_length.less(
            segment_offset,
        ) {
            return None;
        }
        let distance_to_next_maneuver: Binary64 = step.distance_at_end.minus(
            distance_at_segment_start,
        ).minus(segment_offset);
        if !distance_to_next_maneuver.is_finite() || distance_to_next_maneuver.less(
            number(ZERO),
        ) {
            return None;
        }
        Some(
            IndexedStepPosition {
                current_step_geometry_index: (route_segment - step.first_route_segment) as u64,
                distance_to_next_maneuver,
            },
        )
    }
}

/// A position on a later step is at the maneuver: no metres are left to it, and the
/// step's last segment is current.
pub proof fn law_past_the_step_the_maneuver_is_reached(
    index: StepExtents,
    position: RoutePosition,
    remaining: nat,
)
    requires
        0 < remaining <= index.steps.len(),
        index.steps[index.steps.len() - remaining].first_route_segment < index.steps[index.steps.len()
            - remaining].end_route_segment <= position.segment_index < index.lengths.len(),
    ensures
        index.located(position, remaining) is Some,
        index.located(position, remaining)->0.distance_to_next_maneuver == number(ZERO),
        index.located(position, remaining)->0.current_step_geometry_index + 1
            == index.steps[index.steps.len() - remaining].end_route_segment
            - index.steps[index.steps.len() - remaining].first_route_segment,
{
}

/// A position on an earlier step is not within the current one.
pub proof fn law_earlier_step_is_not_the_current_one(
    index: StepExtents,
    position: RoutePosition,
    remaining: nat,
)
    requires
        0 < remaining <= index.steps.len(),
        position.segment_index < index.steps[index.steps.len() - remaining].first_route_segment,
    ensures
        index.located(position, remaining) is None,
{
}

/// The metres to the next maneuver are a number, and never less than zero.
pub proof fn law_distance_ahead_is_valid(
    index: StepExtents,
    position: RoutePosition,
    remaining: nat,
)
    requires
        index.located(position, remaining) is Some,
    ensures
        index.located(position, remaining)->0.distance_to_next_maneuver.is_finite(),
        !index.located(position, remaining)->0.distance_to_next_maneuver.less(number(ZERO)),
{
}

/// The steps of an aligned route follow one another without a gap, from its first
/// segment to its last.
pub proof fn law_aligned_steps_cover_the_route(
    line: Seq<GeographicCoordinate>,
    steps: Seq<Arc<RouteStep>>,
    lengths: Seq<Binary64>,
    k: int,
)
    requires
        aligned(line, steps),
        line.len() <= usize::MAX,
        0 <= k < steps.len(),
    ensures
        extents(lengths, steps).steps[k].first_route_segment == (if k == 0 {
            0
        } else {
            extents(lengths, steps).steps[k - 1].end_route_segment as int
        }),
        extents(lengths, steps).steps[k].first_route_segment <= extents(
            lengths,
            steps,
        ).steps[k].end_route_segment,
        k == steps.len() - 1 ==> extents(lengths, steps).steps[k].end_route_segment + 1
            == line.len(),
{
    assert(step_fits(line, steps, k));
    assert(segments_before(steps, (k + 1) as nat) == segments_before(steps, k as nat)
        + segment_count(steps[k].geometry@.len()));
    if k > 0 {
        assert(step_fits(line, steps, k - 1));
    }
}

/// A position is within the current step where its segment is one of the step's and its offset
/// lies on the segment. It is then as many segments into the step as its segment is beyond the
/// step's first one, and the metres left are those from there to the step's end.
pub proof fn law_within_the_step_the_rest_of_it_is_left(
    index: StepExtents,
    position: RoutePosition,
    remaining: nat,
)
    requires
        0 < remaining <= index.steps.len(),
        index.steps[index.steps.len() - remaining].first_route_segment <= position.segment_index
            < index.steps[index.steps.len() - remaining].end_route_segment <= index.lengths.len(),
    ensures
        ({
            let step = index.steps[index.steps.len() - remaining];
            let offset = position.segment_offset_meters;
            let length = index.lengths[position.segment_index as int];
            let left = step.distance_at_end.minus(
                total_length(index.lengths, position.segment_index as nat),
            ).minus(offset);
            let found = index.located(position, remaining);
            &&& found is Some <==> {
                &&& offset.is_finite()
                &&& !offset.less(number(0))
                &&& !length.less(offset)
                &&& left.is_finite()
                &&& !left.less(number(0))
            }
            &&& found is Some ==> {
                &&& found->0.current_step_geometry_index == position.segment_index
                    - step.first_route_segment
                &&& found->0.distance_to_next_maneuver == left
            }
        }),
{
}

/// Without a step left, with more than there are, or off the route, no position is within a
/// step.
pub proof fn law_off_the_steps_nothing_is_located(
    index: StepExtents,
    position: RoutePosition,
    remaining: nat,
)
    requires
        remaining == 0 || remaining > index.steps.len() || position.segment_index
            >= index.lengths.len(),
    ensures
        index.located(position, remaining) is None,
{
}

/// A step without a segment of its own has its first one current once it is reached.
pub proof fn law_an_empty_step_is_reached_at_once(
    index: StepExtents,
    position: RoutePosition,
    remaining: nat,
)
    requires
        0 < remaining <= index.steps.len(),
        index.steps[index.steps.len() - remaining].first_route_segment
            == index.steps[index.steps.len() - remaining].end_route_segment,
        index.steps[index.steps.len() - remaining].end_route_segment <= position.segment_index
            < index.lengths.len(),
    ensures
        index.located(position, remaining) == Some(
            IndexedStepPosition {
                current_step_geometry_index: 0,
                distance_to_next_maneuver: number(0),
            },
        ),
{
}

/// On an aligned route every vertex of a step is the vertex of the route that lies as many
/// segments beyond the step's first one, and the step takes up a segment less than it has
/// vertices, and ends at the length of the route up to there.
pub proof fn law_aligned_steps_lie_on_the_route(
    line: Seq<GeographicCoordinate>,
    steps: Seq<Arc<RouteStep>>,
    lengths: Seq<Binary64>,
    k: int,
    i: int,
)
    requires
        aligned(line, steps),
        line.len() <= usize::MAX,
        0 <= k < steps.len(),
        0 <= i < steps[k].geometry@.len(),
    ensures
        ({
            let step = extents(lengths, steps).steps[k];
            let vertex = line[step.first_route_segment + i];
            &&& step.first_route_segment + i < line.len()
            &&& vertex.lat.equals(steps[k].geometry@[i].lat)
            &&& vertex.lng.equals(steps[k].geometry@[i].lng)
            &&& step.end_route_segment - step.first_route_segment == steps[k].geometry@.len() - 1
            &&& step.distance_at_end == total_length(lengths, step.end_route_segment as nat)
        }),
{
    assert(step_fits(line, steps, k));
    let first = segments_before(steps, k as nat) as int;
    let geometry = steps[k].geometry@;
    let stretch = line.subrange(first, first + geometry.len());
    assert(same_position(stretch[i], geometry[i]));
    assert(stretch[i] == line[first + i]);
    assert(segments_before(steps, (k + 1) as nat) == segments_before(steps, k as nat)
        + segment_count(geometry.len()));
}

/// Steps are aligned with a route exactly where there is a step, each step has vertices and
/// they are those of the route from where the step before it ends, and the last one ends at
/// the last vertex of the route.
pub proof fn law_steps_are_aligned_vertex_by_vertex(
    line: Seq<GeographicCoordinate>,
    steps: Seq<Arc<RouteStep>>,
)
    ensures
        aligned(line, steps) <==> {
            &&& steps.len() > 0
            &&& forall|k: int|
                0 <= k < steps.len() ==> (#[trigger] steps[k]).geometry@.len() > 0
                    && segments_before(steps, k as nat) + steps[k].geometry@.len() <= line.len()
            &&& forall|k: int, i: int|
                0 <= k < steps.len() && 0 <= i < steps[k].geometry@.len() ==> same_position(
                    line[segments_before(steps, k as nat) + i],
                    #[trigger] steps[k].geometry@[i],
                )
            &&& segments_before(steps, steps.len()) + 1 == line.len()
        },
        segments_before(steps, 0) == 0,
        forall|k: nat|
            k < steps.len() && steps[k as int].geometry@.len() > 0 ==> #[trigger] segments_before(
                steps,
                k + 1,
            ) == segments_before(steps, k) + steps[k as int].geometry@.len() - 1,
{
    assert forall|k: int| 0 <= k < steps.len() implies (step_fits(line, steps, k)
        <==> steps[k].geometry@.len() > 0 && segments_before(steps, k as nat)
        + steps[k].geometry@.len() <= line.len() && forall|i: int|
        0 <= i < steps[k].geometry@.len() ==> same_position(
            line[segments_before(steps, k as nat) + i],
            #[trigger] steps[k].geometry@[i],
        )) by {
        let first = segments_before(steps, k as nat) as int;
        let geometry = steps[k].geometry@;
        if geometry.len() > 0 && first + geometry.len() <= line.len() {
            let stretch = line.subrange(first, first + geometry.len());
            assert forall|i: int| 0 <= i < geometry.len() implies #[trigger] stretch[i]
                == line[first + i] by {}
            if same_line(stretch, geometry) {
                assert forall|i: int| 0 <= i < geometry.len() implies same_position(
                    line[first + i],
                    #[trigger] geometry[i],
                ) by {
                    assert(same_position(stretch[i], geometry[i]));
                }
            }
        }
    }
    if aligned(line, steps) {
        assert forall|k: int| 0 <= k < steps.len() implies (#[trigger] steps[k]).geometry@.len() > 0
            && segments_before(steps, k as nat) + steps[k].geometry@.len() <= line.len() by {
            assert(step_fits(line, steps, k));
        }
        assert forall|k: int, i: int|
            0 <= k < steps.len() && 0 <= i < steps[k].geometry@.len() implies same_position(
            line[segments_before(steps, k as nat) + i],
            #[trigger] steps[k].geometry@[i],
        ) by {
            assert(step_fits(line, steps, k));
        }
    }
}

} // verus!
