//! What holds of every controller.
use std::sync::Arc;

use vstd::prelude::*;

use crate::binary64::Binary64;
use crate::controller::plan::{
    guided, has_current_step, is_arriving, stands, waypoints_ahead, Plan,
};
use crate::controller::plan_of;
use crate::controller::state::{
    completed, AdvanceFacts, InitialFacts, NavModel, NavigationControllerConfig, StepFacts,
    StepMeasures, UpdateFacts,
};
use crate::models::{same_line, Route, RouteStep, UserLocation};
use crate::step_advance::conditions::{decision, renewed, ConditionModel};
use crate::trip::{bound_position, RouteDeviation, Trip, TripModel};
use crate::uzmatch::snap::{RoutePosition, SegmentMeasure};
use crate::uzmatch::{initial_state, MatchState, UzmatchSnapshot};

verus! {

/// Whether a trip gives no guidance while the user is off the route altogether.
pub open spec fn no_phantom_guidance(trip: TripModel) -> bool {
    trip matches TripModel::Navigating(trip) ==> trip.deviation.is_completely_off_route() ==> {
        &&& trip.visual_instruction is None
        &&& trip.spoken_instruction is None
    }
}

/// Whether the remaining steps of a trip are the last steps of the route.
pub open spec fn follows(trip: TripModel, steps: Seq<Arc<RouteStep>>) -> bool {
    trip matches TripModel::Navigating(trip) ==> trip.remaining_steps.len() <= steps.len()
        && trip.remaining_steps == steps.subrange(
        steps.len() - trip.remaining_steps.len(),
        steps.len() as int,
    )
}

/// A trip starts on the first step of the route, with every step left, the waypoints
/// after the first, and the condition of the settings; a route without steps is at its
/// end.
pub proof fn law_trip_starts_at_the_first_step(
    plan: Plan,
    location: UserLocation,
    facts: InitialFacts,
)
    ensures
        plan.steps.len() == 0 ==> plan.initial(location, facts).trip is Complete,
        plan.steps.len() > 0 ==> {
            let state = plan.initial(location, facts);
            &&& state.trip is Navigating
            &&& state.trip->Navigating_0.remaining_steps == plan.steps
            &&& state.trip->Navigating_0.remaining_waypoints == waypoints_ahead(plan.waypoints)
            &&& state.trip->Navigating_0.user_location == location
            &&& state.condition == plan.config.condition
        },
{
}

/// From the first fix on, no state gives guidance while the user is off the route.
pub proof fn law_off_route_gives_no_guidance(
    plan: Plan,
    state: NavModel,
    location: UserLocation,
    first: InitialFacts,
    facts: UpdateFacts,
    advance: AdvanceFacts,
)
    requires
        no_phantom_guidance(state.trip),
    ensures
        no_phantom_guidance(plan.initial(location, first).trip),
        no_phantom_guidance(plan.advanced(state, advance).trip),
        no_phantom_guidance(plan.updated(state, location, facts).0.trip),
{
}

/// On the route, on whichever step, the guidance is that of the current step.
pub proof fn law_on_the_route_guidance_is_given(
    trip: Trip,
    deviation: RouteDeviation,
    facts: StepFacts,
)
    requires
        trip.remaining_steps.len() > 0,
        !deviation.is_completely_off_route(),
    ensures
        guided(trip, deviation, facts).visual_instruction == facts.visual_instruction,
        guided(trip, deviation, facts).spoken_instruction == facts.spoken_instruction,
        guided(trip, deviation, facts).deviation == deviation,
{
}

/// Where the matching core does not run, a fix that does not advance the trip tells the
/// deviation of the host, with the guidance of the current step on the route and none off
/// it.
pub proof fn law_guidance_follows_the_deviation(
    plan: Plan,
    state: NavModel,
    location: UserLocation,
    facts: UpdateFacts,
)
    requires
        plan.segments is None,
        state.trip is Navigating,
        has_current_step(state.trip),
        !plan.judged(
            state.condition,
            plan.seen(state.trip->Navigating_0, state.uzmatch, location, facts).0,
            facts,
        ).0,
    ensures
        ({
            let before = state.trip->Navigating_0;
            let (after, again) = plan.updated(state, location, facts);
            let trip = after.trip->Navigating_0;
            let lost = facts.deviation.is_completely_off_route();
            &&& !again
            &&& after.trip is Navigating
            &&& trip.remaining_steps == before.remaining_steps
            &&& trip.deviation == facts.deviation
            &&& trip.visual_instruction == (if lost {
                None
            } else {
                facts.step.visual_instruction
            })
            &&& trip.spoken_instruction == (if lost {
                None
            } else {
                facts.step.spoken_instruction
            })
        }),
{
}

/// On a trip that only advances by hand, without the matching core, a fix off the route
/// takes the guidance away and the fix on the route that came before it brings it back: the
/// host finds for that fix what it found at first.
pub proof fn law_guidance_comes_back_on_the_route(
    plan: Plan,
    on: UserLocation,
    off: UserLocation,
    first: InitialFacts,
    away: UpdateFacts,
    back: UpdateFacts,
)
    requires
        plan.steps.len() > 0,
        plan.segments is None,
        plan.config.condition is Manual,
        plan.config.arrival_condition is Manual,
        first.deviation == RouteDeviation::NoDeviation,
        away.deviation.is_completely_off_route(),
        back.deviation == first.deviation,
        back.step.visual_instruction == first.step.visual_instruction,
        back.step.spoken_instruction == first.step.spoken_instruction,
    ensures
        ({
            let start = plan.initial(on, first);
            let (lost, lost_again) = plan.updated(start, off, away);
            let (found, found_again) = plan.updated(lost, on, back);
            &&& start.trip is Navigating && lost.trip is Navigating && found.trip is Navigating
            &&& !lost_again && !found_again
            &&& lost.trip->Navigating_0.deviation == away.deviation
            &&& lost.trip->Navigating_0.visual_instruction is None
            &&& lost.trip->Navigating_0.spoken_instruction is None
            &&& found.trip->Navigating_0.deviation == RouteDeviation::NoDeviation
            &&& found.trip->Navigating_0.remaining_steps
                == start.trip->Navigating_0.remaining_steps
            &&& found.trip->Navigating_0.visual_instruction
                == start.trip->Navigating_0.visual_instruction
            &&& found.trip->Navigating_0.spoken_instruction
                == start.trip->Navigating_0.spoken_instruction
        }),
{
    let start = plan.initial(on, first);
    let lost = plan.updated(start, off, away).0;
    law_guidance_follows_the_deviation(plan, start, off, away);
    assert(lost.condition is Manual);
    law_guidance_follows_the_deviation(plan, lost, on, back);
}

/// The remaining steps are always the last steps of the route.
pub proof fn law_remaining_steps_end_the_route(
    plan: Plan,
    state: NavModel,
    location: UserLocation,
    first: InitialFacts,
    facts: UpdateFacts,
    advance: AdvanceFacts,
)
    requires
        follows(state.trip, plan.steps),
    ensures
        follows(plan.initial(location, first).trip, plan.steps),
        follows(plan.advanced(state, advance).trip, plan.steps),
        follows(plan.updated(state, location, facts).0.trip, plan.steps),
{
    assert(plan.steps.subrange(0, plan.steps.len() as int) =~= plan.steps);
    lemma_advance_follows(plan, state, advance);
    match state.trip {
        TripModel::Navigating(trip) => {
            let (seen, uzmatch) = plan.seen(trip, state.uzmatch, location, facts);
            let (_, condition) = plan.judged(state.condition, seen, facts);
            let after = NavModel { trip: TripModel::Navigating(seen), condition, uzmatch };
            assert(seen.remaining_steps == trip.remaining_steps);
            lemma_advance_follows(plan, after, facts.advance);
        },
        _ => {},
    }
}

proof fn lemma_advance_follows(plan: Plan, state: NavModel, facts: AdvanceFacts)
    requires
        follows(state.trip, plan.steps),
    ensures
        follows(plan.advanced(state, facts).trip, plan.steps),
{
    match state.trip {
        TripModel::Navigating(trip) => {
            let left = trip.remaining_steps.len();
            if left > 1 {
                assert(trip.remaining_steps.subrange(1, left as int) =~= plan.steps.subrange(
                    plan.steps.len() - (left - 1),
                    plan.steps.len() as int,
                ));
            }
        },
        _ => {},
    }
}

/// A trip under way always has a current step: it starts with one, and no advance and no
/// fix takes the last one without ending the trip.
pub proof fn law_trip_under_way_has_a_current_step(
    plan: Plan,
    state: NavModel,
    location: UserLocation,
    first: InitialFacts,
    facts: UpdateFacts,
    advance: AdvanceFacts,
)
    requires
        has_current_step(state.trip),
    ensures
        has_current_step(plan.initial(location, first).trip),
        has_current_step(plan.advanced(state, advance).trip),
        has_current_step(plan.updated(state, location, facts).0.trip),
{
}

/// An advance leaves one step fewer and renews the condition, or on the last step ends
/// the trip where the user is.
pub proof fn law_advance_takes_one_step(plan: Plan, state: NavModel, facts: AdvanceFacts)
    requires
        state.trip is Navigating,
    ensures
        ({
            let trip = state.trip->Navigating_0;
            let after = plan.advanced(state, facts);
            if trip.remaining_steps.len() > 1 {
                &&& after.trip is Navigating
                &&& after.trip->Navigating_0.remaining_steps == trip.remaining_steps.subrange(
                    1,
                    trip.remaining_steps.len() as int,
                )
                &&& after.trip->Navigating_0.user_location == trip.user_location
                &&& after.trip->Navigating_0.deviation == trip.deviation
                &&& after.condition == renewed(state.condition)
                &&& after.uzmatch == state.uzmatch
            } else {
                after == completed(trip.user_location, trip.summary)
            }
        }),
{
}

/// A trip that has not started or is at its end is left as it is.
pub proof fn law_only_a_trip_under_way_changes(
    plan: Plan,
    state: NavModel,
    location: UserLocation,
    facts: UpdateFacts,
    advance: AdvanceFacts,
)
    requires
        !(state.trip is Navigating),
    ensures
        plan.advanced(state, advance) == state,
        plan.updated(state, location, facts) == (state, false),
{
}

/// The same fix is given again only with fewer steps left, so that a fix is done after
/// at most as many turns as there are steps.
pub proof fn law_giving_a_fix_again_ends(
    plan: Plan,
    state: NavModel,
    location: UserLocation,
    facts: UpdateFacts,
)
    requires
        plan.updated(state, location, facts).1,
    ensures
        state.trip is Navigating,
        state.trip->Navigating_0.remaining_steps.len() > 2,
        plan.updated(state, location, facts).0.trip is Navigating,
        plan.updated(state, location, facts).0.trip->Navigating_0.remaining_steps.len() + 1
            == state.trip->Navigating_0.remaining_steps.len(),
{
}

/// A fix moves a trip by at most one step at a time: it keeps the steps, goes to the
/// next one, or ends the trip.
pub proof fn law_a_fix_moves_at_most_one_step(
    plan: Plan,
    state: NavModel,
    location: UserLocation,
    facts: UpdateFacts,
)
    requires
        state.trip is Navigating,
    ensures
        ({
            let before = state.trip->Navigating_0.remaining_steps;
            let after = plan.updated(state, location, facts).0.trip;
            ||| after is Complete && before.len() <= 1
            ||| after is Navigating && after->Navigating_0.remaining_steps == before
            ||| after is Navigating && before.len() > 1 && after->Navigating_0.remaining_steps
                == before.subrange(1, before.len() as int)
        }),
{
}

/// While the user stands still before the last two steps, a fix neither advances nor
/// changes the condition or the deviation.
pub proof fn law_standing_freezes_the_trip(
    plan: Plan,
    state: NavModel,
    location: UserLocation,
    facts: UpdateFacts,
)
    requires
        state.trip is Navigating,
        !is_arriving(state.trip->Navigating_0.remaining_steps),
        stands(plan.bound(state.uzmatch, location, facts.measurements).1),
    ensures
        ({
            let before = state.trip->Navigating_0;
            let (after, again) = plan.updated(state, location, facts);
            &&& !again
            &&& after.trip is Navigating
            &&& after.trip->Navigating_0.remaining_steps == before.remaining_steps
            &&& after.trip->Navigating_0.deviation == before.deviation
            &&& after.condition == state.condition
        }),
{
}

/// While the user stands still, on whichever step, a fix changes neither the deviation
/// nor what the matching core holds of it.
pub proof fn law_standing_keeps_the_deviation(
    plan: Plan,
    trip: Trip,
    uzmatch: MatchState,
    location: UserLocation,
    facts: UpdateFacts,
)
    requires
        stands(plan.bound(uzmatch, location, facts.measurements).1),
    ensures
        plan.seen(trip, uzmatch, location, facts).0.deviation == trip.deviation,
        plan.seen(trip, uzmatch, location, facts).1.cling == uzmatch.cling,
        plan.seen(trip, uzmatch, location, facts).1.heading_departure_streak
            == uzmatch.heading_departure_streak,
{
}

/// On the last two steps the arrival condition decides, even while the user stands
/// still; before them, the condition of the state.
pub proof fn law_arrival_is_decided_apart(
    plan: Plan,
    condition: ConditionModel,
    trip: Trip,
    facts: UpdateFacts,
)
    ensures
        is_arriving(trip.remaining_steps) ==> plan.judged(condition, trip, facts) == decision(
            plan.config.arrival_condition,
            TripModel::Navigating(trip),
            facts.evidence.model(),
        ),
        !is_arriving(trip.remaining_steps) && !stands(trip.uzmatch) ==> plan.judged(
            condition,
            trip,
            facts,
        ) == decision(condition, TripModel::Navigating(trip), facts.evidence.model()),
        !is_arriving(trip.remaining_steps) && stands(trip.uzmatch) ==> plan.judged(
            condition,
            trip,
            facts,
        ) == (false, condition),
{
}

/// A fix that is bound to the route is snapped to exactly that position, whatever the
/// current step.
pub proof fn law_bound_fix_is_snapped_to_its_position(
    plan: Plan,
    location: UserLocation,
    steps: Seq<Arc<RouteStep>>,
    snapshot: Option<UzmatchSnapshot>,
    measures: StepMeasures,
)
    requires
        bound_position(snapshot) is Some,
    ensures
        plan.placed(location, steps, snapshot, measures).1 == plan.moved_to(
            location,
            bound_position(snapshot)->0,
        ),
        plan.placed(location, steps, snapshot, measures).1.coordinates == bound_position(
            snapshot,
        )->0.coordinates,
        plan.placed(location, steps, snapshot, measures).1.timestamp == location.timestamp,
{
}

/// Steps that are not those of the route are never combined with a position on it.
pub proof fn law_foreign_steps_are_not_indexed(
    plan: Plan,
    steps: Seq<Arc<RouteStep>>,
    snapshot: Option<UzmatchSnapshot>,
)
    requires
        steps.len() == 0 || steps.len() > plan.steps.len() || !same_line(
            plan.steps[plan.steps.len() - steps.len()].geometry@,
            steps[0].geometry@,
        ),
    ensures
        plan.indexed(steps, snapshot) is None,
{
}

/// Where the matching core does not run, it stays as it is, and the deviation is that
/// of the host.
pub proof fn law_without_matching_the_host_decides(
    plan: Plan,
    trip: Trip,
    uzmatch: MatchState,
    location: UserLocation,
    facts: UpdateFacts,
)
    requires
        plan.segments is None,
    ensures
        plan.seen(trip, uzmatch, location, facts).0.deviation == facts.deviation,
        plan.seen(trip, uzmatch, location, facts).0.uzmatch is None,
        plan.seen(trip, uzmatch, location, facts).1 == uzmatch,
{
}

/// Whether a trip tells nothing of the matching core.
pub open spec fn is_unmatched(trip: TripModel) -> bool {
    trip matches TripModel::Navigating(trip) ==> trip.uzmatch is None
}

/// With the matching core switched off, no state of a trip tells anything of it, and
/// whatever the core held stays as it was.
pub proof fn law_switched_off_matching_is_never_seen(
    route: Route,
    config: NavigationControllerConfig,
    measures: Seq<SegmentMeasure>,
    state: NavModel,
    location: UserLocation,
    first: InitialFacts,
    facts: UpdateFacts,
    advance: AdvanceFacts,
)
    requires
        !config.uzmatch.enabled,
        is_unmatched(state.trip),
    ensures
        ({
            let plan = plan_of(route, config, measures);
            &&& is_unmatched(plan.initial(location, first).trip)
            &&& is_unmatched(plan.advanced(state, advance).trip)
            &&& is_unmatched(plan.updated(state, location, facts).0.trip)
            &&& plan.initial(location, first).uzmatch == initial_state()
            &&& plan.updated(state, location, facts).0.trip is Navigating ==> plan.updated(
                state,
                location,
                facts,
            ).0.uzmatch == state.uzmatch
        }),
{
}

/// Without a confirmed departure, the user counts as off the route only where the host
/// says so and no position holds them: none was accepted as on the route, or the fix is
/// far enough from it both in time and in distance.
pub proof fn law_route_loss_is_held_back(
    plan: Plan,
    state: MatchState,
    position: Option<RoutePosition>,
    location: UserLocation,
    deviation: RouteDeviation,
    distance_from_match: Binary64,
    distance_from_anchor: Binary64,
)
    requires
        !plan.departs(state.heading_departure_streak, position, location),
    ensures
        ({
            let (told, _) = plan.stabilized(
                state,
                true,
                position,
                location,
                deviation,
                distance_from_match,
                distance_from_anchor,
            );
            told.is_completely_off_route() ==> {
                &&& told == deviation
                &&& state.cling.anchor is None || state.cling.anchored_at is None
                    || state.cling.far_enough(location, plan.config.uzmatch, distance_from_anchor)
            }
        }),
{
}

/// A deviation that leaves the user on the route accepts the position: the next route
/// loss within the cling time is held back, however far it is.
pub proof fn law_on_the_route_anchors(
    plan: Plan,
    state: MatchState,
    position: Option<RoutePosition>,
    location: UserLocation,
    deviation: RouteDeviation,
    distance_from_match: Binary64,
    distance_from_anchor: Binary64,
    later: UserLocation,
    distance: Binary64,
)
    requires
        !deviation.is_completely_off_route(),
        !plan.departs(state.heading_departure_streak, position, location),
        location.timestamp.instant() <= later.timestamp.instant() < location.timestamp.instant()
            + plan.config.uzmatch.cling_time_ms * 1_000_000,
    ensures
        ({
            let (told, after) = plan.stabilized(
                state,
                true,
                position,
                location,
                deviation,
                distance_from_match,
                distance_from_anchor,
            );
            told == deviation && after.cling.held(later, plan.config.uzmatch, distance)
        }),
{
}

/// A confirmed departure is told at once, whatever the host says.
pub proof fn law_departure_is_told_at_once(
    plan: Plan,
    state: MatchState,
    position: Option<RoutePosition>,
    location: UserLocation,
    deviation: RouteDeviation,
    distance_from_match: Binary64,
    distance_from_anchor: Binary64,
)
    requires
        plan.departs(state.heading_departure_streak, position, location),
    ensures
        plan.stabilized(
            state,
            true,
            position,
            location,
            deviation,
            distance_from_match,
            distance_from_anchor,
        ).0.is_completely_off_route(),
        plan.stabilized(
            state,
            true,
            position,
            location,
            deviation,
            distance_from_match,
            distance_from_anchor,
        ).1.cling == state.cling,
{
}

/// A departure is never told before as many diverging fixes in a row as the settings
/// ask for.
pub proof fn law_departure_needs_confirmations(
    plan: Plan,
    streak: u8,
    position: Option<RoutePosition>,
    location: UserLocation,
)
    requires
        streak + 1 < plan.config.uzmatch.heading_departure_confirmations,
    ensures
        !plan.departs(streak, position, location),
        plan.streak(streak, position, location) <= streak + 1,
{
}

/// A fix that does not diverge starts the count anew, and so does every fix where
/// departures are not looked for.
pub proof fn law_other_fix_ends_the_streak(
    plan: Plan,
    streak: u8,
    position: Option<RoutePosition>,
    location: UserLocation,
)
    requires
        !plan.diverges(position, location)
            || !plan.config.uzmatch.heading_departure_enabled,
    ensures
        plan.streak(streak, position, location) == 0,
        !plan.departs(streak, position, location),
{
}

/// Once a departure is told, every further diverging fix tells it again; the count never
/// passes the number that the settings ask for, or one where they ask for none.
pub proof fn law_departure_goes_on(
    plan: Plan,
    streak: u8,
    position: Option<RoutePosition>,
    location: UserLocation,
    next_position: Option<RoutePosition>,
    next: UserLocation,
)
    requires
        plan.departs(streak, position, location),
        plan.diverges(next_position, next),
    ensures
        plan.departs(plan.streak(streak, position, location), next_position, next),
        plan.streak(streak, position, location)
            <= plan.config.uzmatch.heading_departure_confirmations
            || plan.streak(streak, position, location) == 1,
{
}

/// A fix counts toward a departure only where it is bound to the route, has a speed and
/// a course, and is not slower than the settings ask for.
pub proof fn law_only_credible_fixes_diverge(
    plan: Plan,
    position: Option<RoutePosition>,
    location: UserLocation,
)
    requires
        plan.diverges(position, location),
    ensures
        position is Some,
        location.course_over_ground is Some,
        location.speed is Some,
        !location.speed->0.value.less(plan.config.uzmatch.heading_departure_min_speed_mps),
{
}

} // verus!
