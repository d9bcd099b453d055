//! What a trip holds after a fix, told by the fix and by what the host found.
use std::sync::Arc;

use vstd::prelude::*;

use crate::binary64::{number, Binary64, ZERO};
use crate::controller::plan::Plan;
use crate::controller::plan_of;
use crate::controller::state::{
    AdvanceFacts, CourseFiltering, InitialFacts, NavModel, NavigationControllerConfig, StepFacts,
    StepMeasures, UpdateFacts, WaypointAdvanceResult,
};
use crate::models::{Route, RouteStep, UserLocation, Waypoint};
use crate::step_advance::conditions::{decision, renewed, ConditionModel};
use crate::trip::{DeviationKind, RouteDeviation, Trip, TripModel};
use crate::uzmatch::snap::{
    angle_between, direction_ahead, pinned_at_vertex, RoutePosition, SegmentMeasure,
};
use crate::uzmatch::{initial_state, MatchState, UzmatchSnapshot};

verus! {

/// Whether a deviation says that the route is left.
pub open spec fn is_lost(deviation: RouteDeviation) -> bool {
    deviation matches RouteDeviation::Deviation {
        kind: DeviationKind::CompletelyOffRoute { .. },
    }
}

/// The waypoints that are left after an answer of the host.
pub open spec fn left_of(answer: WaypointAdvanceResult, before: Seq<Waypoint>) -> Seq<Waypoint> {
    match answer {
        WaypointAdvanceResult::Unchanged => before,
        WaypointAdvanceResult::Changed(left) => left@,
    }
}

/// The position that a fix was bound to.
pub open spec fn bound_to(snapshot: Option<UzmatchSnapshot>) -> Option<RoutePosition> {
    if snapshot is Some {
        snapshot->0.route_position
    } else {
        None
    }
}

/// The condition that decides over the first of some steps: before the last two, that of the
/// state, and on them that of the arrival.
pub open spec fn decides_over(
    plan: Plan,
    condition: ConditionModel,
    steps: Seq<Arc<RouteStep>>,
) -> ConditionModel {
    if steps.len() > 2 {
        condition
    } else {
        plan.config.arrival_condition
    }
}

/// Whether a trip holds a fix as it was given and as the host found it on the first of the
/// steps.
pub open spec fn holds_the_fix(
    trip: Trip,
    location: UserLocation,
    steps: Seq<Arc<RouteStep>>,
    waypoints: Seq<Waypoint>,
    facts: StepFacts,
) -> bool {
    &&& trip.user_location == location
    &&& trip.remaining_steps == steps
    &&& trip.remaining_waypoints == waypoints
    &&& trip.summary == facts.summary
    &&& trip.progress.distance_remaining == facts.measures.progress.distance_remaining
    &&& trip.progress.duration_remaining == facts.measures.progress.duration_remaining
    &&& trip.annotation == (if trip.current_step_geometry_index is Some {
        facts.annotation
    } else {
        None
    })
    &&& trip.visual_instruction == (if is_lost(trip.deviation) {
        None
    } else {
        facts.visual_instruction
    })
    &&& trip.spoken_instruction == (if is_lost(trip.deviation) {
        None
    } else {
        facts.spoken_instruction
    })
}

/// A fix that does not advance the trip leaves it with the fix as the host found it: its
/// summary, its waypoints, its progress and its guidance, on the same steps.
pub proof fn law_a_fix_is_told_as_it_was_found(
    plan: Plan,
    state: NavModel,
    location: UserLocation,
    facts: UpdateFacts,
)
    requires
        state.trip is Navigating,
        state.trip->Navigating_0.remaining_steps.len() > 0,
    ensures
        ({
            let before = state.trip->Navigating_0;
            let (after, _) = plan.updated(state, location, facts);
            let (seen, _) = plan.seen(before, state.uzmatch, location, facts);
            let (advances, condition) = decision(
                decides_over(plan, state.condition, before.remaining_steps),
                TripModel::Navigating(seen),
                facts.evidence.model(),
            );
            let stands = seen.uzmatch is Some && seen.uzmatch->0.is_standing
                && before.remaining_steps.len() > 2;
            &&& holds_the_fix(
                seen,
                location,
                before.remaining_steps,
                left_of(facts.waypoints, before.remaining_waypoints),
                facts.step,
            )
            &&& stands || !advances ==> {
                &&& after.trip == TripModel::Navigating(seen)
                &&& after.condition == (if stands {
                    state.condition
                } else {
                    condition
                })
            }
        }),
{
}

/// A fix that advances the trip leaves it on the next step, with what the host found there
/// and a renewed condition; on the last step it ends the trip with the summary of the fix.
/// The fix is given again where more than the last two steps were left.
pub proof fn law_an_advancing_fix_leads_to_the_next_step(
    plan: Plan,
    state: NavModel,
    location: UserLocation,
    facts: UpdateFacts,
)
    requires
        state.trip is Navigating,
        state.trip->Navigating_0.remaining_steps.len() > 0,
        ({
            let before = state.trip->Navigating_0;
            let (seen, _) = plan.seen(before, state.uzmatch, location, facts);
            &&& decision(
                decides_over(plan, state.condition, before.remaining_steps),
                TripModel::Navigating(seen),
                facts.evidence.model(),
            ).0
            &&& !(seen.uzmatch is Some && seen.uzmatch->0.is_standing)
                || before.remaining_steps.len() <= 2
        }),
    ensures
        ({
            let before = state.trip->Navigating_0;
            let steps = before.remaining_steps;
            let (seen, core) = plan.seen(before, state.uzmatch, location, facts);
            let (after, again) = plan.updated(state, location, facts);
            &&& again <==> steps.len() > 2
            &&& steps.len() == 1 ==> after.trip == (TripModel::Complete {
                user_location: location,
                summary: facts.step.summary,
            })
            &&& steps.len() > 1 ==> {
                &&& after.trip is Navigating
                &&& after.trip->Navigating_0.deviation == seen.deviation
                &&& after.trip->Navigating_0.uzmatch == seen.uzmatch
                &&& after.uzmatch == core
                &&& after.condition == renewed(
                    decision(
                        decides_over(plan, state.condition, steps),
                        TripModel::Navigating(seen),
                        facts.evidence.model(),
                    ).1,
                )
                &&& holds_the_fix(
                    after.trip->Navigating_0,
                    location,
                    steps.skip(1),
                    left_of(
                        facts.advance.waypoints,
                        left_of(facts.waypoints, before.remaining_waypoints),
                    ),
                    facts.advance.step,
                )
            }
        }),
{
    let before = state.trip->Navigating_0;
    if before.remaining_steps.len() > 1 {
        assert(before.remaining_steps.skip(1) =~= before.remaining_steps.subrange(
            1,
            before.remaining_steps.len() as int,
        ));
    }
}

/// An advance by hand leaves the trip on the next step as the host finds the latest fix
/// there.
pub proof fn law_an_advance_is_told_as_it_was_found(
    plan: Plan,
    state: NavModel,
    facts: AdvanceFacts,
)
    requires
        state.trip is Navigating,
        state.trip->Navigating_0.remaining_steps.len() > 1,
    ensures
        ({
            let before = state.trip->Navigating_0;
            let after = plan.advanced(state, facts);
            &&& after.trip is Navigating
            &&& after.trip->Navigating_0.deviation == before.deviation
            &&& after.trip->Navigating_0.uzmatch == before.uzmatch
            &&& holds_the_fix(
                after.trip->Navigating_0,
                before.user_location,
                before.remaining_steps.skip(1),
                left_of(facts.waypoints, before.remaining_waypoints),
                facts.step,
            )
        }),
{
    let before = state.trip->Navigating_0;
    assert(before.remaining_steps.skip(1) =~= before.remaining_steps.subrange(
        1,
        before.remaining_steps.len() as int,
    ));
}

/// An advance on the last step ends the trip where the user is, with what has been made.
pub proof fn law_an_advance_on_the_last_step_arrives(
    plan: Plan,
    state: NavModel,
    facts: AdvanceFacts,
)
    requires
        state.trip is Navigating,
        state.trip->Navigating_0.remaining_steps.len() <= 1,
    ensures
        plan.advanced(state, facts).trip == (TripModel::Complete {
            user_location: state.trip->Navigating_0.user_location,
            summary: state.trip->Navigating_0.summary,
        }),
        plan.advanced(state, facts).condition == ConditionModel::Manual,
        plan.advanced(state, facts).uzmatch == initial_state(),
{
}

/// A trip starts with nothing made, at the instant that the host tells, with the deviation
/// that it tells, on all steps and with all waypoints but the first.
pub proof fn law_a_trip_starts_with_nothing_made(
    plan: Plan,
    location: UserLocation,
    facts: InitialFacts,
)
    requires
        plan.steps.len() > 0,
    ensures
        ({
            let state = plan.initial(location, facts);
            let trip = state.trip->Navigating_0;
            &&& state.trip is Navigating
            &&& trip.user_location == location
            &&& trip.remaining_steps == plan.steps
            &&& plan.waypoints.len() > 0 ==> trip.remaining_waypoints == plan.waypoints.skip(1)
            &&& plan.waypoints.len() == 0 ==> trip.remaining_waypoints.len() == 0
            &&& trip.summary.distance_traveled == number(ZERO)
            &&& trip.summary.snapped_distance_traveled == number(ZERO)
            &&& trip.summary.started_at == facts.started_at
            &&& trip.summary.ended_at is None
            &&& trip.deviation == facts.deviation
            &&& trip.visual_instruction == (if is_lost(facts.deviation) {
                None
            } else {
                facts.step.visual_instruction
            })
            &&& trip.spoken_instruction == (if is_lost(facts.deviation) {
                None
            } else {
                facts.step.spoken_instruction
            })
            &&& trip.progress.distance_remaining == facts.step.measures.progress.distance_remaining
            &&& trip.progress.duration_remaining == facts.step.measures.progress.duration_remaining
            &&& trip.annotation == (if trip.current_step_geometry_index is Some {
                facts.step.annotation
            } else {
                None
            })
            &&& state.condition == plan.config.condition
        }),
{
    if plan.waypoints.len() > 0 {
        assert(plan.waypoints.skip(1) =~= plan.waypoints.subrange(
            1,
            plan.waypoints.len() as int,
        ));
    }
}

/// A route without steps is at its end from the first fix on, with nothing made.
pub proof fn law_a_route_without_steps_is_at_its_end(
    plan: Plan,
    location: UserLocation,
    facts: InitialFacts,
)
    requires
        plan.steps.len() == 0,
    ensures
        ({
            let trip = plan.initial(location, facts).trip;
            &&& trip is Complete
            &&& trip->Complete_user_location == location
            &&& trip->Complete_summary.distance_traveled == number(ZERO)
            &&& trip->Complete_summary.snapped_distance_traveled == number(ZERO)
            &&& trip->Complete_summary.started_at == facts.started_at
            &&& trip->Complete_summary.ended_at is None
        }),
{
}

/// A fix that is not bound to the route is snapped to the line of the step as the host
/// measured it, with the course of the line only where the settings ask for that.
pub proof fn law_an_unbound_fix_is_snapped_to_the_step(
    plan: Plan,
    location: UserLocation,
    steps: Seq<Arc<RouteStep>>,
    snapshot: Option<UzmatchSnapshot>,
    measures: StepMeasures,
)
    requires
        bound_to(snapshot) is None,
    ensures
        plan.placed(location, steps, snapshot, measures) == (
            measures.closest_segment,
            if plan.config.course_filtering == CourseFiltering::SnapToRoute {
                measures.projected_with_course
            } else {
                measures.projected
            },
            measures.progress,
        ),
{
}

/// A fix that is bound to the route is snapped to the position with the accuracy, speed and
/// instant of the fix, and with the course of the route only where the settings ask for that.
/// Where the position is within the current step, that tells the segment and the metres to
/// the next maneuver; the rest of the progress is as measured.
pub proof fn law_a_bound_fix_is_placed_by_its_position(
    plan: Plan,
    location: UserLocation,
    steps: Seq<Arc<RouteStep>>,
    snapshot: Option<UzmatchSnapshot>,
    measures: StepMeasures,
)
    requires
        bound_to(snapshot) is Some,
    ensures
        ({
            let position = bound_to(snapshot)->0;
            let (segment, snapped, progress) = plan.placed(location, steps, snapshot, measures);
            &&& snapped.coordinates == position.coordinates
            &&& snapped.horizontal_accuracy == location.horizontal_accuracy
            &&& snapped.timestamp == location.timestamp
            &&& snapped.speed == location.speed
            &&& snapped.course_over_ground == (if plan.config.course_filtering
                == CourseFiltering::SnapToRoute {
                position.course_over_ground
            } else {
                location.course_over_ground
            })
            &&& progress.distance_remaining == measures.progress.distance_remaining
            &&& progress.duration_remaining == measures.progress.duration_remaining
            &&& match plan.indexed(steps, snapshot) {
                Some(within) => segment == Some(within.current_step_geometry_index)
                    && progress.distance_to_next_maneuver == within.distance_to_next_maneuver,
                None => segment == measures.closest_segment && progress.distance_to_next_maneuver
                    == measures.progress.distance_to_next_maneuver,
            }
        }),
{
}

/// A trip holds where its fix was placed.
pub proof fn law_a_trip_holds_where_its_fix_was_placed(
    plan: Plan,
    trip: Trip,
    core: MatchState,
    location: UserLocation,
    facts: UpdateFacts,
)
    ensures
        ({
            let (seen, _) = plan.seen(trip, core, location, facts);
            let (segment, snapped, progress) = plan.placed(
                location,
                trip.remaining_steps,
                seen.uzmatch,
                facts.step.measures,
            );
            &&& seen.current_step_geometry_index == segment
            &&& seen.snapped_user_location == snapped
            &&& seen.progress == progress
        }),
{
}

/// A position is sought within the current step where the remaining steps are the last of
/// the route, the steps are aligned with the route, and the fix was bound.
pub proof fn law_a_position_is_within_the_current_step(
    plan: Plan,
    steps: Seq<Arc<RouteStep>>,
    snapshot: Option<UzmatchSnapshot>,
)
    requires
        0 < steps.len() <= plan.steps.len(),
        steps == plan.steps.skip(plan.steps.len() - steps.len()),
        forall|i: int|
            0 <= i < steps[0].geometry@.len() ==> !(
            #[trigger] steps[0].geometry@[i]).lat.is_nan() && !steps[0].geometry@[i].lng.is_nan(),
    ensures
        plan.indexed(steps, snapshot) == (if bound_to(snapshot) is Some && plan.extents is Some {
            plan.extents->0.located(bound_to(snapshot)->0, steps.len())
        } else {
            None
        }),
{
    assert(steps[0] == plan.steps[plan.steps.len() - steps.len()]);
}

/// A fix diverges exactly where it is bound to a vertex of the route with a direction ahead,
/// has a speed that is not below the least one, and a course that strays from that direction
/// by more than the tolerance. A course without an accuracy is taken as it is, and one with an
/// accuracy where that is within the tolerance.
pub proof fn law_a_straying_course_diverges(
    plan: Plan,
    position: RoutePosition,
    location: UserLocation,
)
    requires
        plan.segments is Some,
        location.course_over_ground is Some,
        location.speed is Some,
        !plan.config.uzmatch.heading_departure_tolerance_deg.is_nan(),
        !plan.config.uzmatch.heading_departure_min_speed_mps.is_nan(),
    ensures
        ({
            let segments = plan.segments->0;
            let course = location.course_over_ground->0;
            let tolerance = plan.config.uzmatch.heading_departure_tolerance_deg;
            let ahead = direction_ahead(segments, position);
            plan.diverges(Some(position), location) <==> {
                &&& course.accuracy is None || Binary64::from_integer(
                    course.accuracy->0 as u128,
                ).at_most(tolerance)
                &&& plan.config.uzmatch.heading_departure_min_speed_mps.at_most(
                    location.speed->0.value,
                )
                &&& pinned_at_vertex(segments, position)
                &&& ahead is Some
                &&& tolerance.less(
                    angle_between(Binary64::from_integer(course.degrees as u128), ahead->0),
                )
            }
        }),
{
    if location.course_over_ground->0.accuracy is Some {
        crate::rounding_bounds::lemma_integer_is_bounded(
            location.course_over_ground->0.accuracy->0 as u128,
        );
    }
}

/// A fix that is not bound, or has no course or no speed, does not diverge, nor does any
/// where the matching core does not run.
pub proof fn law_a_fix_without_a_course_does_not_diverge(
    plan: Plan,
    position: Option<RoutePosition>,
    location: UserLocation,
)
    requires
        position is None || location.course_over_ground is None || location.speed is None
            || plan.segments is None,
    ensures
        !plan.diverges(position, location),
{
}

/// Where departures are looked for, each diverging fix counts one more up to the number that
/// is asked for, and from that number on the departure is told.
pub proof fn law_diverging_fixes_are_counted(
    plan: Plan,
    streak: u8,
    position: Option<RoutePosition>,
    location: UserLocation,
)
    requires
        plan.config.uzmatch.heading_departure_enabled,
        plan.diverges(position, location),
    ensures
        ({
            let asked = plan.config.uzmatch.heading_departure_confirmations;
            &&& streak < asked ==> plan.streak(streak, position, location) == streak + 1
            &&& streak >= asked > 0 ==> plan.streak(streak, position, location) == asked
            &&& plan.departs(streak, position, location) <==> streak + 1 >= asked
        }),
{
}

/// Whether a route loss is within reach of the last position that was accepted as on the
/// route: not older than the cling time, or nearer than the cling distance.
pub open spec fn clings(
    plan: Plan,
    state: MatchState,
    location: UserLocation,
    distance: Binary64,
) -> bool {
    &&& state.cling.anchor is Some
    &&& state.cling.anchored_at is Some
    &&& ({
        let age = location.timestamp.instant() - state.cling.anchored_at->0.instant();
        ||| 0 <= age < plan.config.uzmatch.cling_time_ms * 1_000_000
        ||| !plan.config.uzmatch.cling_distance_m.at_most(distance)
    })
}

/// What is told where the matching core ran: a confirmed departure is a route loss by the
/// distance from the matched position, unless the host tells one of its own; any other route
/// loss of the host is told as it is unless it clings to the route; and what leaves the user
/// on the route is told as it is.
pub proof fn law_the_told_deviation(
    plan: Plan,
    state: MatchState,
    position: Option<RoutePosition>,
    location: UserLocation,
    deviation: RouteDeviation,
    distance_from_match: Binary64,
    distance_from_anchor: Binary64,
)
    ensures
        ({
            let departs = plan.departs(state.heading_departure_streak, position, location);
            let (told, after) = plan.stabilized(
                state,
                true,
                position,
                location,
                deviation,
                distance_from_match,
                distance_from_anchor,
            );
            &&& told == (if is_lost(deviation) {
                if !departs && clings(plan, state, location, distance_from_anchor) {
                    RouteDeviation::NoDeviation
                } else {
                    deviation
                }
            } else if departs {
                RouteDeviation::Deviation {
                    kind: DeviationKind::CompletelyOffRoute {
                        deviation_from_route_line: distance_from_match,
                    },
                }
            } else {
                deviation
            })
            &&& after.heading_departure_streak == plan.streak(
                state.heading_departure_streak,
                position,
                location,
            )
            &&& !departs && !is_lost(deviation) ==> {
                &&& after.cling.anchor == Some(
                    if position is Some {
                        position->0.coordinates
                    } else {
                        location.coordinates
                    },
                )
                &&& after.cling.anchored_at == Some(location.timestamp)
            }
            &&& !departs && is_lost(deviation) ==> if clings(
                plan,
                state,
                location,
                distance_from_anchor,
            ) || state.cling.anchor is None || state.cling.anchored_at is None {
                after.cling == state.cling
            } else {
                after.cling.anchor is None && after.cling.anchored_at is None
            }
            &&& departs ==> after.cling == state.cling
            &&& after.standing == state.standing
            &&& after.location_class == state.location_class
            &&& after.speed_history == state.speed_history
            &&& after.route_position == state.route_position
            &&& after.temporal_match == state.temporal_match
        }),
{
}

/// Where the matching core runs, a fix that does not find the user standing tells the
/// stabilized deviation, and leaves the core as that left it.
pub proof fn law_a_moving_user_is_told_the_stabilized_deviation(
    plan: Plan,
    trip: Trip,
    core: MatchState,
    location: UserLocation,
    facts: UpdateFacts,
)
    requires
        plan.segments is Some,
    ensures
        ({
            let (bound, snapshot) = plan.bound(core, location, facts.measurements);
            let (seen, after) = plan.seen(trip, core, location, facts);
            &&& snapshot is Some
            &&& seen.uzmatch == snapshot
            &&& !snapshot->0.is_standing ==> (seen.deviation, after) == plan.stabilized(
                bound,
                true,
                snapshot->0.route_position,
                location,
                facts.deviation,
                facts.distance_from_match,
                facts.distance_from_anchor,
            )
            &&& snapshot->0.is_standing ==> seen.deviation == trip.deviation && after == bound
        }),
{
}

/// A controller leads along the steps and waypoints of its route with its settings, and
/// indexes the route exactly where the matching core runs.
pub proof fn law_a_plan_is_that_of_its_route(
    route: Route,
    config: NavigationControllerConfig,
    measures: Seq<SegmentMeasure>,
)
    ensures
        ({
            let plan = plan_of(route, config, measures);
            &&& plan.steps == route.steps@
            &&& plan.waypoints == route.waypoints@
            &&& plan.config.uzmatch == config.uzmatch
            &&& plan.config.course_filtering == config.snapped_location_course_filtering
            &&& plan.config.condition == config.step_advance_condition.model()
            &&& plan.config.arrival_condition == config.arrival_step_advance_condition.model()
            &&& plan.segments is Some <==> config.uzmatch.enabled
            &&& plan.segments is Some ==> (plan.segments->0).len() == measures.len()
            &&& !config.uzmatch.enabled ==> plan.extents is None
        }),
{
}

} // verus!
