//! When each condition advances, told by the trip and by what was measured.
use std::sync::Arc;

use vstd::prelude::*;

use crate::binary64::{number, Binary64, ZERO};
use crate::models::{GeographicCoordinate, ManeuverModifier, RouteStep, UserLocation};
use crate::rounding_bounds::lemma_integer_is_bounded;
use crate::step_advance::conditions::{
    angle, decision, first_direction, has_direction, inquiry_of, joined_line, last_direction,
    on_globe, reach_of, renewed, turned_bearing, ConditionModel, ConfirmationModel,
    DeviationCalculationPolicy, DistanceEntryAndExitCondition, DistanceEntryAndSnappedExitCondition,
    DistanceFromStepCondition, DistanceToEndOfStepCondition, EvidenceModel, InquiryModel, Leg,
    MovementModel,
};
use crate::step_advance::laws::law_composites_combine;
use crate::time::Span;
use crate::trip::{DeviationKind, RouteDeviation, Trip, TripModel};

verus! {

/// Whether a fix is at least as accurate as so many metres, or of no known accuracy.
pub open spec fn is_accurate_to(location: UserLocation, metres: u16) -> bool {
    location.horizontal_accuracy.is_nan() || location.horizontal_accuracy.at_most(
        Binary64::from_integer(metres as u128),
    )
}

/// Whether a trip has left the route.
pub open spec fn has_left_the_route(trip: Trip) -> bool {
    trip.deviation matches RouteDeviation::Deviation {
        kind: DeviationKind::CompletelyOffRoute { .. },
    }
}

/// The number of a count of metres is a number.
proof fn lemma_metres_are_a_number(metres: u16)
    ensures
        !Binary64::from_integer(metres as u128).is_nan(),
{
    lemma_integer_is_bounded(metres as u128);
}

/// Once the end of the step is reached, leaving it advances: with an accurate fix, on the
/// step or on a later one alike, exactly from the asked metres from the line of the step on,
/// and never off the route. The end stays reached until then, and has to be reached again
/// after that.
pub proof fn law_leaving_the_reached_end_advances(
    condition: DistanceEntryAndExitCondition,
    trip: Trip,
    deviation: Binary64,
)
    requires
        condition.has_reached_end_of_current_step,
        trip.remaining_steps.len() > 0,
    ensures
        ({
            let (advances, after) = decision(
                ConditionModel::EntryAndExit(condition),
                TripModel::Navigating(trip),
                EvidenceModel::Deviation(Some(deviation)),
            );
            &&& advances <==> {
                &&& !has_left_the_route(trip)
                &&& is_accurate_to(trip.user_location, condition.minimum_horizontal_accuracy)
                &&& Binary64::from_integer(condition.distance_after_end_of_step as u128).at_most(
                    deviation,
                )
            }
            &&& after is EntryAndExit
            &&& after->EntryAndExit_0 == (DistanceEntryAndExitCondition {
                has_reached_end_of_current_step: !advances,
                ..condition
            })
        }),
{
    lemma_metres_are_a_number(condition.minimum_horizontal_accuracy);
}

/// A fix whose deviation could not be measured leaves nothing.
pub proof fn law_unmeasured_deviation_leaves_nothing(
    condition: DistanceEntryAndExitCondition,
    from_step: DistanceFromStepCondition,
    trip: TripModel,
)
    ensures
        !decision(
            ConditionModel::EntryAndExit(condition),
            trip,
            EvidenceModel::Deviation(None),
        ).0,
        !decision(
            ConditionModel::DistanceFromStep(from_step),
            trip,
            EvidenceModel::Deviation(None),
        ).0,
{
}

/// The end of the step is reached by an accurate fix that is close to it, and by no other;
/// it is asked for within the metres of the condition.
pub proof fn law_the_end_is_reached_close_to_it(
    condition: DistanceEntryAndExitCondition,
    snapped: DistanceEntryAndSnappedExitCondition,
    trip: Trip,
    close: bool,
)
    requires
        !condition.has_reached_end_of_current_step,
        !snapped.has_reached_end_of_current_step,
        trip.remaining_steps.len() > 0,
    ensures
        ({
            let (advances, after) = decision(
                ConditionModel::EntryAndExit(condition),
                TripModel::Navigating(trip),
                EvidenceModel::Within(close),
            );
            &&& !advances
            &&& after is EntryAndExit
            &&& after->EntryAndExit_0 == (DistanceEntryAndExitCondition {
                has_reached_end_of_current_step: close && is_accurate_to(
                    trip.user_location,
                    condition.minimum_horizontal_accuracy,
                ),
                ..condition
            })
        }),
        ({
            let (advances, after) = decision(
                ConditionModel::EntryAndSnappedExit(snapped),
                TripModel::Navigating(trip),
                EvidenceModel::Within(close),
            );
            &&& !advances
            &&& after is EntryAndSnappedExit
            &&& after->EntryAndSnappedExit_0 == (DistanceEntryAndSnappedExitCondition {
                has_reached_end_of_current_step: close && is_accurate_to(
                    trip.user_location,
                    snapped.minimum_horizontal_accuracy,
                ),
                ..snapped
            })
        }),
        inquiry_of(
            ConditionModel::EntryAndExit(condition),
            TripModel::Navigating(trip),
        ) matches InquiryModel::WithinEndOfStep { threshold, .. } ==> threshold
            == condition.distance_to_end_of_step,
        inquiry_of(
            ConditionModel::EntryAndSnappedExit(snapped),
            TripModel::Navigating(trip),
        ) matches InquiryModel::WithinEndOfStep { threshold, .. } ==> threshold
            == snapped.distance_to_end_of_step,
        is_accurate_to(trip.user_location, condition.minimum_horizontal_accuracy) ==> inquiry_of(
            ConditionModel::EntryAndExit(condition),
            TripModel::Navigating(trip),
        ) is WithinEndOfStep,
        is_accurate_to(trip.user_location, snapped.minimum_horizontal_accuracy) ==> inquiry_of(
            ConditionModel::EntryAndSnappedExit(snapped),
            TripModel::Navigating(trip),
        ) is WithinEndOfStep,
{
    lemma_metres_are_a_number(condition.minimum_horizontal_accuracy);
    lemma_metres_are_a_number(snapped.minimum_horizontal_accuracy);
}

/// A reached end is asked for by the deviation from the step, on and off it, as long as the
/// trip is on the route.
pub proof fn law_a_reached_end_asks_for_the_deviation(
    condition: DistanceEntryAndExitCondition,
    trip: Trip,
)
    requires
        condition.has_reached_end_of_current_step,
        trip.remaining_steps.len() > 0,
    ensures
        inquiry_of(ConditionModel::EntryAndExit(condition), TripModel::Navigating(trip))
            is DeviationFromStep <==> !has_left_the_route(trip) && is_accurate_to(
            trip.user_location,
            condition.minimum_horizontal_accuracy,
        ),
{
    lemma_metres_are_a_number(condition.minimum_horizontal_accuracy);
}

/// The condition on the distance to the end advances exactly for an accurate fix that is
/// close to the end, and asks with its own metres.
pub proof fn law_close_to_the_end_advances(
    condition: DistanceToEndOfStepCondition,
    trip: Trip,
    close: bool,
)
    requires
        trip.remaining_steps.len() > 0,
    ensures
        decision(
            ConditionModel::DistanceToEndOfStep(condition),
            TripModel::Navigating(trip),
            EvidenceModel::Within(close),
        ) == (
            close && is_accurate_to(trip.user_location, condition.minimum_horizontal_accuracy),
            ConditionModel::DistanceToEndOfStep(condition),
        ),
        is_accurate_to(trip.user_location, condition.minimum_horizontal_accuracy) ==> {
            let asked = inquiry_of(
                ConditionModel::DistanceToEndOfStep(condition),
                TripModel::Navigating(trip),
            );
            asked is WithinEndOfStep && asked->threshold == condition.distance
        },
{
    lemma_metres_are_a_number(condition.minimum_horizontal_accuracy);
}

/// The condition on the distance from the step advances exactly for an accurate fix at least
/// so many metres from the step, where its policy lets it: always, unless the route is left,
/// or only on the step.
pub proof fn law_far_from_the_step_advances(
    condition: DistanceFromStepCondition,
    trip: Trip,
    deviation: Binary64,
)
    requires
        trip.remaining_steps.len() > 0,
    ensures
        decision(
            ConditionModel::DistanceFromStep(condition),
            TripModel::Navigating(trip),
            EvidenceModel::Deviation(Some(deviation)),
        ) == (
            {
                &&& is_accurate_to(trip.user_location, condition.minimum_horizontal_accuracy)
                &&& Binary64::from_integer(condition.distance as u128).at_most(deviation)
                &&& condition.calculation_policy == DeviationCalculationPolicy::WhileOnRoute
                    ==> !has_left_the_route(trip)
                &&& condition.calculation_policy == DeviationCalculationPolicy::WhileOnCurrentStep
                    ==> trip.deviation == RouteDeviation::NoDeviation
            },
            ConditionModel::DistanceFromStep(condition),
        ),
{
    lemma_metres_are_a_number(condition.minimum_horizontal_accuracy);
}

/// A trip that is not under way has no step, so that no condition on distances advances.
pub proof fn law_without_a_step_nothing_advances(
    to_end: DistanceToEndOfStepCondition,
    from_step: DistanceFromStepCondition,
    exit: DistanceEntryAndExitCondition,
    snapped: DistanceEntryAndSnappedExitCondition,
    trip: TripModel,
    evidence: EvidenceModel,
)
    requires
        trip matches TripModel::Navigating(trip) ==> trip.remaining_steps.len() == 0,
    ensures
        !decision(ConditionModel::DistanceToEndOfStep(to_end), trip, evidence).0,
        !decision(ConditionModel::DistanceFromStep(from_step), trip, evidence).0,
        !decision(ConditionModel::EntryAndExit(exit), trip, evidence).0,
        !decision(ConditionModel::EntryAndSnappedExit(snapped), trip, evidence).0,
{
}

/// Leaving a reached end on the snapped line: on the last step at once, and before it where
/// the snapped fix is far enough from the step, which is the asked metres or all the line
/// that follows where that is shorter. The end has to be reached again in any case.
pub proof fn law_leaving_the_end_on_the_snapped_line(
    condition: DistanceEntryAndSnappedExitCondition,
    trip: Trip,
    deviation: Binary64,
)
    requires
        condition.has_reached_end_of_current_step,
        trip.remaining_steps.len() > 0,
        is_accurate_to(trip.user_location, condition.minimum_horizontal_accuracy),
    ensures
        ({
            let (advances, after) = decision(
                ConditionModel::EntryAndSnappedExit(condition),
                TripModel::Navigating(trip),
                EvidenceModel::Deviation(Some(deviation)),
            );
            let asked = Binary64::from_integer(condition.distance_after_end_of_step as u128);
            let next = trip.remaining_steps[1].distance;
            &&& trip.remaining_steps.len() == 1 ==> advances
            &&& asked.at_most(deviation) ==> advances
            &&& trip.remaining_steps.len() == 2 && next.at_most(deviation) ==> advances
            &&& trip.remaining_steps.len() == 2 && deviation.less(asked) && deviation.less(next)
                ==> !advances
            &&& after is EntryAndSnappedExit
            &&& after->EntryAndSnappedExit_0 == (DistanceEntryAndSnappedExitCondition {
                has_reached_end_of_current_step: false,
                ..condition
            })
        }),
{
    lemma_metres_are_a_number(condition.minimum_horizontal_accuracy);
    lemma_metres_are_a_number(condition.distance_after_end_of_step);
}

/// The sum of the lengths of the steps from a number on up to another.
pub open spec fn length_of_steps(
    steps: Seq<Arc<RouteStep>>,
    first: nat,
    last: nat,
    length: Binary64,
) -> Binary64
    decreases last,
{
    if last <= first {
        length
    } else {
        length_of_steps(steps, first, (last - 1) as nat, length).plus(steps[last as int].distance)
    }
}

/// The line on which an end is left reaches as far as the target or as there are steps, and
/// no step farther than that takes.
pub proof fn law_the_line_reaches_the_target(
    steps: Seq<Arc<RouteStep>>,
    target: Binary64,
    first: nat,
    length: Binary64,
)
    requires
        first < steps.len(),
    ensures
        ({
            let (last, reached) = reach_of(steps, target, first, length);
            &&& first <= last < steps.len()
            &&& reached == length_of_steps(steps, first, last, length)
            &&& !reached.less(target) || last + 1 == steps.len()
            &&& forall|k: nat|
                first <= k < last ==> (#[trigger] length_of_steps(steps, first, k, length)).less(
                    target,
                )
        }),
{
    lemma_reach(steps, target, first, length, first, length);
}

proof fn lemma_reach(
    steps: Seq<Arc<RouteStep>>,
    target: Binary64,
    first: nat,
    length: Binary64,
    last: nat,
    so_far: Binary64,
)
    requires
        first <= last < steps.len(),
        so_far == length_of_steps(steps, first, last, length),
        forall|k: nat|
            first <= k < last ==> (#[trigger] length_of_steps(steps, first, k, length)).less(target),
    ensures
        ({
            let (end, reached) = reach_of(steps, target, last, so_far);
            &&& last <= end < steps.len()
            &&& reached == length_of_steps(steps, first, end, length)
            &&& !reached.less(target) || end + 1 == steps.len()
            &&& forall|k: nat|
                first <= k < end ==> (#[trigger] length_of_steps(steps, first, k, length)).less(
                    target,
                )
        }),
    decreases steps.len() - last,
{
    if so_far.less(target) && last + 1 < steps.len() {
        lemma_reach(
            steps,
            target,
            first,
            length,
            last + 1,
            so_far.plus(steps[(last + 1) as int].distance),
        );
    }
}

/// The number of positions on the lines of the first steps.
pub open spec fn positions_before(steps: Seq<Arc<RouteStep>>, n: nat) -> nat
    decreases n,
{
    if n == 0 {
        0
    } else {
        positions_before(steps, (n - 1) as nat) + steps[n - 1].geometry@.len()
    }
}

/// The line of the first steps holds the line of each of them, one after the other.
pub proof fn law_the_joined_line_holds_every_step(
    steps: Seq<Arc<RouteStep>>,
    n: nat,
    k: int,
    i: int,
)
    requires
        0 <= k < n <= steps.len(),
        0 <= i < steps[k].geometry@.len(),
    ensures
        joined_line(steps, n).len() == positions_before(steps, n),
        positions_before(steps, k as nat) + i < joined_line(steps, n).len(),
        joined_line(steps, n)[positions_before(steps, k as nat) + i] == steps[k].geometry@[i],
    decreases n,
{
    lemma_joined_length(steps, n);
    lemma_joined_length(steps, (n - 1) as nat);
    if k < n - 1 {
        law_the_joined_line_holds_every_step(steps, (n - 1) as nat, k, i);
    }
}

proof fn lemma_joined_length(steps: Seq<Arc<RouteStep>>, n: nat)
    ensures
        joined_line(steps, n).len() == positions_before(steps, n),
    decreases n,
{
    if n > 0 {
        lemma_joined_length(steps, (n - 1) as nat);
    }
}

/// A reached end asks where the snapped fix is on the line of the current step and of those
/// after it, up to twice the asked metres or the last step.
pub proof fn law_the_snapped_line_starts_with_the_step(
    condition: DistanceEntryAndSnappedExitCondition,
    trip: Trip,
)
    requires
        condition.has_reached_end_of_current_step,
        trip.remaining_steps.len() > 1,
        is_accurate_to(trip.user_location, condition.minimum_horizontal_accuracy),
    ensures
        ({
            let steps = trip.remaining_steps;
            let asked = inquiry_of(
                ConditionModel::EntryAndSnappedExit(condition),
                TripModel::Navigating(trip),
            );
            let twice = Binary64::from_integer(condition.distance_after_end_of_step as u128).times(
                number(0x4000_0000_0000_0000),
            );
            &&& asked is SnappedDeviation
            &&& exists|last: nat|
                1 <= last < steps.len() && asked->line == #[trigger] joined_line(steps, last + 1)
                    && (!length_of_steps(steps, 1, last, steps[1].distance).less(twice) || last + 1
                    == steps.len())
        }),
{
    lemma_metres_are_a_number(condition.minimum_horizontal_accuracy);
    let steps = trip.remaining_steps;
    let twice = Binary64::from_integer(condition.distance_after_end_of_step as u128).times(
        number(0x4000_0000_0000_0000),
    );
    law_the_line_reaches_the_target(steps, twice, 1, steps[1].distance);
    let last = reach_of(steps, twice, 1, steps[1].distance).0;
    let asked = inquiry_of(
        ConditionModel::EntryAndSnappedExit(condition),
        TripModel::Navigating(trip),
    );
    assert(asked->line == joined_line(steps, last + 1));
}

/// Neither the asked metres nor any stretch of the line that follows reached, an end is not
/// left.
pub proof fn law_short_of_the_line_the_end_is_not_left(
    condition: DistanceEntryAndSnappedExitCondition,
    trip: Trip,
    deviation: Binary64,
)
    requires
        trip.remaining_steps.len() > 1,
        deviation.less(Binary64::from_integer(condition.distance_after_end_of_step as u128)),
        forall|k: nat|
            1 <= k < trip.remaining_steps.len() ==> deviation.less(
                #[trigger] length_of_steps(
                    trip.remaining_steps,
                    1,
                    k,
                    trip.remaining_steps[1].distance,
                ),
            ),
    ensures
        !decision(
            ConditionModel::EntryAndSnappedExit(condition),
            TripModel::Navigating(trip),
            EvidenceModel::Deviation(Some(deviation)),
        ).0,
{
    let steps = trip.remaining_steps;
    let twice = Binary64::from_integer(condition.distance_after_end_of_step as u128).times(
        number(0x4000_0000_0000_0000),
    );
    law_the_line_reaches_the_target(steps, twice, 1, steps[1].distance);
    let last = reach_of(steps, twice, 1, steps[1].distance).0;
    assert(deviation.less(length_of_steps(steps, 1, last, steps[1].distance)));
}

/// Conditions ask from where the user is: the position that the fix was bound to, or else the
/// fix itself.
pub proof fn law_conditions_ask_from_where_the_user_is(
    to_end: DistanceToEndOfStepCondition,
    from_step: DistanceFromStepCondition,
    exit: DistanceEntryAndExitCondition,
    snapped: DistanceEntryAndSnappedExitCondition,
    trip: Trip,
)
    ensures
        ({
            let state = TripModel::Navigating(trip);
            let here = if trip.uzmatch is Some && trip.uzmatch->0.route_position is Some {
                trip.uzmatch->0.route_position->0.coordinates
            } else {
                trip.user_location.coordinates
            };
            &&& is_asked_from(inquiry_of(ConditionModel::DistanceToEndOfStep(to_end), state), here)
            &&& is_asked_from(inquiry_of(ConditionModel::DistanceFromStep(from_step), state), here)
            &&& is_asked_from(inquiry_of(ConditionModel::EntryAndExit(exit), state), here)
            &&& is_asked_from(inquiry_of(ConditionModel::EntryAndSnappedExit(snapped), state), here)
        }),
{
}

/// Whether an inquiry, where it asks for a distance, asks for that from a position.
pub open spec fn is_asked_from(inquiry: InquiryModel, here: GeographicCoordinate) -> bool {
    match inquiry {
        InquiryModel::WithinEndOfStep { position, .. } => position == here,
        InquiryModel::DeviationFromStep { position } => position == here,
        InquiryModel::SnappedDeviation { position, .. } => position == here,
        _ => true,
    }
}

/// A position is on the globe between the poles and within half a turn of longitude.
pub proof fn law_the_globe_ends_at_the_poles(position: GeographicCoordinate)
    ensures
        on_globe(position) <==> {
            &&& position.lat.absolute().at_most(number(0x4056_8000_0000_0000))
            &&& position.lng.absolute().at_most(number(0x4066_8000_0000_0000))
        },
{
}

/// The direction of a line at its end is that of its last segment that has one, and at its
/// start that of its first.
pub proof fn law_directions_are_the_outermost(line: Seq<GeographicCoordinate>, legs: Seq<Leg>)
    ensures
        match last_direction(line, legs, legs.len()) {
            Some(leg) => exists|i: int|
                #![trigger legs[i]]
                0 <= i < legs.len() && leg == legs[i] && has_direction(line, legs, i) && forall|
                    j: int,
                |
                    i < j < legs.len() ==> !#[trigger] has_direction(line, legs, j),
            None => forall|j: int|
                0 <= j < legs.len() ==> !#[trigger] has_direction(line, legs, j),
        },
        match first_direction(line, legs, 0) {
            Some(leg) => exists|i: int|
                #![trigger legs[i]]
                0 <= i < legs.len() && leg == legs[i] && has_direction(line, legs, i) && forall|
                    j: int,
                |
                    0 <= j < i ==> !#[trigger] has_direction(line, legs, j),
            None => forall|j: int|
                0 <= j < legs.len() ==> !#[trigger] has_direction(line, legs, j),
        },
{
    lemma_last_direction(line, legs, legs.len());
    lemma_first_direction(line, legs, 0);
}

proof fn lemma_last_direction(line: Seq<GeographicCoordinate>, legs: Seq<Leg>, n: nat)
    requires
        n <= legs.len(),
        forall|j: int| n <= j < legs.len() ==> !#[trigger] has_direction(line, legs, j),
    ensures
        match last_direction(line, legs, n) {
            Some(leg) => exists|i: int|
                #![trigger legs[i]]
                0 <= i < legs.len() && leg == legs[i] && has_direction(line, legs, i) && forall|
                    j: int,
                |
                    i < j < legs.len() ==> !#[trigger] has_direction(line, legs, j),
            None => forall|j: int|
                0 <= j < legs.len() ==> !#[trigger] has_direction(line, legs, j),
        },
    decreases n,
{
    if n > 0 && !has_direction(line, legs, n - 1) {
        lemma_last_direction(line, legs, (n - 1) as nat);
    } else if n > 0 {
        assert(legs[n - 1] == last_direction(line, legs, n)->0);
    }
}

proof fn lemma_first_direction(line: Seq<GeographicCoordinate>, legs: Seq<Leg>, from: nat)
    requires
        from <= legs.len(),
        forall|j: int| 0 <= j < from ==> !#[trigger] has_direction(line, legs, j),
    ensures
        match first_direction(line, legs, from) {
            Some(leg) => exists|i: int|
                #![trigger legs[i]]
                0 <= i < legs.len() && leg == legs[i] && has_direction(line, legs, i) && forall|
                    j: int,
                |
                    0 <= j < i ==> !#[trigger] has_direction(line, legs, j),
            None => forall|j: int|
                0 <= j < legs.len() ==> !#[trigger] has_direction(line, legs, j),
        },
    decreases legs.len() - from,
{
    if from < legs.len() {
        if has_direction(line, legs, from as int) {
            assert(legs[from as int] == first_direction(line, legs, from)->0);
        } else {
            lemma_first_direction(line, legs, from + 1);
        }
    }
}

/// A segment has a direction exactly where both its ends are on the globe and its length is
/// finite and more than nothing.
pub proof fn law_a_segment_with_a_length_has_a_direction(
    line: Seq<GeographicCoordinate>,
    legs: Seq<Leg>,
    i: int,
)
    requires
        0 <= i < legs.len(),
        legs.len() < line.len(),
    ensures
        has_direction(line, legs, i) <==> {
            &&& line[i].lat.absolute().at_most(number(0x4056_8000_0000_0000))
            &&& line[i].lng.absolute().at_most(number(0x4066_8000_0000_0000))
            &&& line[i + 1].lat.absolute().at_most(number(0x4056_8000_0000_0000))
            &&& line[i + 1].lng.absolute().at_most(number(0x4066_8000_0000_0000))
            &&& legs[i].distance_metres.is_finite()
            &&& number(ZERO).less(legs[i].distance_metres)
        },
{
}

/// Whether a movement can be judged by a fix: it is on the globe, with an accuracy from zero
/// up to the accepted metres.
pub open spec fn is_judged_by(confirmation: ConfirmationModel, location: UserLocation) -> bool {
    &&& location.coordinates.lat.absolute().at_most(number(0x4056_8000_0000_0000))
    &&& location.coordinates.lng.absolute().at_most(number(0x4066_8000_0000_0000))
    &&& number(ZERO).at_most(location.horizontal_accuracy)
    &&& location.horizontal_accuracy.at_most(
        Binary64::from_integer(confirmation.minimum_horizontal_accuracy as u128),
    )
}

/// Whether a condition watches the movement of a trip since an anchor, on a fix that it has
/// not evaluated yet.
pub open spec fn is_watching(confirmation: ConfirmationModel, trip: Trip) -> bool {
    &&& confirmation.confirmation_active
    &&& confirmation.required_confirmations > 0
    &&& confirmation.movement_anchor is Some
    &&& confirmation.last_evaluated_timestamp is Some
        ==> confirmation.last_evaluated_timestamp->0.instant()
        != trip.user_location.timestamp.instant()
}

/// Whether a movement since the anchor can be believed: between fixes that it can be judged
/// by, forward in time, and not longer than the speed and the allowance let it be.
pub open spec fn is_believed(
    confirmation: ConfirmationModel,
    trip: Trip,
    metres: Binary64,
) -> bool {
    let anchor = confirmation.movement_anchor->0;
    let elapsed = Span {
        nanos: (trip.user_location.timestamp.instant() - anchor.timestamp.instant()) as u128,
    };
    let longest = Binary64::from_integer(confirmation.maximum_plausible_speed as u128).times(
        elapsed.as_seconds(),
    ).plus(Binary64::from_integer(confirmation.plausibility_distance_allowance as u128));
    &&& is_judged_by(confirmation, anchor)
    &&& is_judged_by(confirmation, trip.user_location)
    &&& anchor.timestamp.instant() < trip.user_location.timestamp.instant()
    &&& metres.is_finite()
    &&& longest.is_finite()
    &&& metres.at_most(longest)
}

/// What the condition is after a movement.
pub open spec fn after_movement(
    confirmation: ConfirmationModel,
    trip: Trip,
    measured: MovementModel,
) -> (bool, ConditionModel) {
    decision(
        ConditionModel::UTurnConfirmation(confirmation),
        TripModel::Navigating(trip),
        EvidenceModel::Movement(measured),
    )
}

/// A movement that cannot be believed starts the watch anew, without an anchor.
pub proof fn law_an_unbelievable_movement_starts_anew(
    confirmation: ConfirmationModel,
    trip: Trip,
    measured: MovementModel,
)
    requires
        is_watching(confirmation, trip),
        !is_believed(confirmation, trip, measured.movement.distance_metres),
    ensures
        after_movement(confirmation, trip, measured) == (
            false,
            ConditionModel::UTurnConfirmation(
                ConfirmationModel {
                    movement_anchor: None,
                    confirmation_count: 0,
                    last_evaluated_timestamp: Some(trip.user_location.timestamp),
                    ..confirmation
                },
            ),
        ),
{
    lemma_metres_are_a_number(confirmation.minimum_horizontal_accuracy);
    lemma_integer_is_bounded(
        confirmation.minimum_horizontal_accuracy as u128,
    );
}

/// A believed movement that is too short to be judged waits for a longer one.
pub proof fn law_a_short_movement_waits(
    confirmation: ConfirmationModel,
    trip: Trip,
    measured: MovementModel,
)
    requires
        is_watching(confirmation, trip),
        is_believed(confirmation, trip, measured.movement.distance_metres),
        measured.movement.distance_metres.less(
            Binary64::from_integer(confirmation.minimum_significant_movement as u128),
        ),
    ensures
        after_movement(confirmation, trip, measured) == (
            false,
            ConditionModel::UTurnConfirmation(
                ConfirmationModel {
                    last_evaluated_timestamp: Some(trip.user_location.timestamp),
                    ..confirmation
                },
            ),
        ),
{
    lemma_integer_is_bounded(
        confirmation.minimum_horizontal_accuracy as u128,
    );
}

/// The angle between a movement and a step, where both have a direction.
pub open spec fn strays_by(movement: Leg, step: Option<Leg>) -> Option<Binary64> {
    if movement.bearing_degrees.is_finite() && step is Some
        && step->0.bearing_degrees.is_finite() {
        Some(angle(turned_bearing(movement)->0, turned_bearing(step->0)->0))
    } else {
        None
    }
}

/// A believed movement that is long enough counts toward the turn where it strays less from
/// the start of the next step than from the end of the current one, and the last count that
/// is asked for advances. Where it strays more, the count starts anew; where alike, it stays.
/// The next movement is judged from the fix. Without directions to compare, the watch starts
/// anew.
pub proof fn law_a_movement_along_the_next_step_counts(
    confirmation: ConfirmationModel,
    trip: Trip,
    measured: MovementModel,
)
    requires
        is_watching(confirmation, trip),
        is_believed(confirmation, trip, measured.movement.distance_metres),
        !measured.movement.distance_metres.less(
            Binary64::from_integer(confirmation.minimum_significant_movement as u128),
        ),
        trip.remaining_steps.len() > 1,
    ensures
        ({
            let current = strays_by(
                measured.movement,
                last_direction(
                    trip.remaining_steps[0].geometry@,
                    measured.current_step,
                    measured.current_step.len(),
                ),
            );
            let next = strays_by(
                measured.movement,
                first_direction(trip.remaining_steps[1].geometry@, measured.next_step, 0),
            );
            let (advances, after) = after_movement(confirmation, trip, measured);
            let then = after->UTurnConfirmation_0;
            let comparable = current is Some && next is Some;
            let nearer = comparable && (next->0).less(current->0);
            let farther = comparable && (current->0).less(next->0);
            &&& after is UTurnConfirmation
            &&& advances <==> nearer && confirmation.confirmation_count + 1
                >= confirmation.required_confirmations
            &&& !advances && nearer ==> then.confirmation_count == confirmation.confirmation_count
                + 1
            &&& farther ==> then.confirmation_count == 0
            &&& comparable && !nearer && !farther ==> then.confirmation_count
                == confirmation.confirmation_count
            &&& comparable && !advances ==> then.movement_anchor == Some(trip.user_location)
                && then.confirmation_active
            &&& !comparable ==> then.movement_anchor is None && then.confirmation_count == 0
            &&& advances ==> then.candidate_successor is None && !then.confirmation_active
                && then.movement_anchor is None && then.confirmation_count == 0
            &&& then.last_evaluated_timestamp == Some(trip.user_location.timestamp)
        }),
{
    lemma_integer_is_bounded(
        confirmation.minimum_horizontal_accuracy as u128,
    );
}

/// A watch without an anchor takes the fix as one where movements can be judged by it.
pub proof fn law_a_watch_without_an_anchor_takes_the_fix(
    confirmation: ConfirmationModel,
    trip: Trip,
    evidence: EvidenceModel,
)
    requires
        confirmation.confirmation_active,
        confirmation.required_confirmations > 0,
        confirmation.movement_anchor is None,
        confirmation.last_evaluated_timestamp is Some
            ==> confirmation.last_evaluated_timestamp->0.instant()
            != trip.user_location.timestamp.instant(),
    ensures
        decision(
            ConditionModel::UTurnConfirmation(confirmation),
            TripModel::Navigating(trip),
            evidence,
        ) == (
            false,
            ConditionModel::UTurnConfirmation(
                ConfirmationModel {
                    movement_anchor: if is_judged_by(confirmation, trip.user_location) {
                        Some(trip.user_location)
                    } else {
                        None
                    },
                    confirmation_count: 0,
                    last_evaluated_timestamp: Some(trip.user_location.timestamp),
                    ..confirmation
                },
            ),
        ),
{
    lemma_integer_is_bounded(
        confirmation.minimum_horizontal_accuracy as u128,
    );
}

/// Whether the shown instruction announces a turn back.
pub open spec fn turns_back(trip: Trip) -> bool {
    trip.visual_instruction is Some && trip.visual_instruction->0.maneuver_modifier == Some(
        ManeuverModifier::UTurn,
    )
}

/// Whether a condition has nothing of the step yet, or only of one of the other kind, on a
/// fix that it has not evaluated.
pub open spec fn is_fresh(confirmation: ConfirmationModel, trip: Trip) -> bool {
    &&& !confirmation.confirmation_active
    &&& confirmation.candidate_successor is None || confirmation.candidate_is_uturn != Some(
        confirmation.uturn_confirmation_enabled && turns_back(trip),
    )
    &&& confirmation.required_confirmations > 0
    &&& confirmation.last_evaluated_timestamp is Some
        ==> confirmation.last_evaluated_timestamp->0.instant()
        != trip.user_location.timestamp.instant()
}

/// A fresh condition watches the step as the condition for its kind does: at a turn back
/// that is to be confirmed on the snapped line, and elsewhere as usual. It holds what that
/// condition holds after the fix.
pub proof fn law_a_fresh_condition_watches_the_step(
    confirmation: ConfirmationModel,
    trip: Trip,
    evidence: EvidenceModel,
)
    requires
        is_fresh(confirmation, trip),
    ensures
        ({
            let state = TripModel::Navigating(trip);
            let back = confirmation.uturn_confirmation_enabled && turns_back(trip);
            let usual = decision(
                ConditionModel::EntryAndExit(
                    DistanceEntryAndExitCondition {
                        distance_to_end_of_step: confirmation.distance_to_end_of_step,
                        distance_after_end_of_step: confirmation.distance_after_end_of_step,
                        minimum_horizontal_accuracy: confirmation.minimum_horizontal_accuracy,
                        has_reached_end_of_current_step: false,
                    },
                ),
                state,
                evidence,
            );
            let snapped = decision(
                ConditionModel::EntryAndSnappedExit(
                    DistanceEntryAndSnappedExitCondition {
                        distance_to_end_of_step: confirmation.distance_to_end_of_step,
                        distance_after_end_of_step: confirmation.distance_after_end_of_step,
                        minimum_horizontal_accuracy: confirmation.minimum_horizontal_accuracy,
                        has_reached_end_of_current_step: false,
                    },
                ),
                state,
                evidence,
            );
            let (advances, after) = decision(
                ConditionModel::UTurnConfirmation(confirmation),
                state,
                evidence,
            );
            let then = after->UTurnConfirmation_0;
            &&& !advances
            &&& after is UTurnConfirmation
            &&& then.candidate_is_uturn == Some(back)
            &&& then.candidate_successor is Some
            &&& *then.candidate_successor->0 == (if back {
                snapped.1
            } else {
                usual.1
            })
            &&& !then.confirmation_active
            &&& then.last_evaluated_timestamp == Some(trip.user_location.timestamp)
        }),
{
}

/// A watched condition decides elsewhere than at a turn back; at one its advance starts the
/// watch of the movement from the fix.
pub proof fn law_the_watched_condition_decides(
    confirmation: ConfirmationModel,
    trip: Trip,
    evidence: EvidenceModel,
)
    requires
        !confirmation.confirmation_active,
        confirmation.candidate_successor is Some,
        confirmation.required_confirmations > 0,
        confirmation.last_evaluated_timestamp is Some
            ==> confirmation.last_evaluated_timestamp->0.instant()
            != trip.user_location.timestamp.instant(),
        confirmation.candidate_is_uturn == Some(
            confirmation.uturn_confirmation_enabled && turns_back(trip),
        ),
    ensures
        ({
            let state = TripModel::Navigating(trip);
            let back = confirmation.uturn_confirmation_enabled && turns_back(trip);
            let watched = decision(*confirmation.candidate_successor->0, state, evidence);
            let (advances, after) = decision(
                ConditionModel::UTurnConfirmation(confirmation),
                state,
                evidence,
            );
            let then = after->UTurnConfirmation_0;
            &&& advances <==> watched.0 && !back
            &&& after is UTurnConfirmation
            &&& !advances ==> then.candidate_successor is Some && *then.candidate_successor->0
                == watched.1
            &&& !advances ==> then.confirmation_active == watched.0
            &&& watched.0 && back ==> then.movement_anchor == (if is_judged_by(
                confirmation,
                trip.user_location,
            ) {
                Some(trip.user_location)
            } else {
                None
            }) && then.confirmation_count == 0
            &&& advances ==> then.candidate_successor is None && then.candidate_is_uturn is None
                && !then.confirmation_active
        }),
{
    lemma_integer_is_bounded(
        confirmation.minimum_horizontal_accuracy as u128,
    );
}

/// A watched movement is asked for from the anchor to the fix.
pub proof fn law_a_watched_movement_is_asked_for(confirmation: ConfirmationModel, trip: Trip)
    requires
        is_watching(confirmation, trip),
        is_judged_by(confirmation, confirmation.movement_anchor->0),
        is_judged_by(confirmation, trip.user_location),
        confirmation.movement_anchor->0.timestamp.instant()
            < trip.user_location.timestamp.instant(),
    ensures
        inquiry_of(
            ConditionModel::UTurnConfirmation(confirmation),
            TripModel::Navigating(trip),
        ) == (InquiryModel::Movement {
            from: confirmation.movement_anchor->0,
            to: trip.user_location,
        }),
{
    lemma_integer_is_bounded(
        confirmation.minimum_horizontal_accuracy as u128,
    );
}

/// A renewed condition holds nothing of the step: no end reached, no watch, and so does each
/// of its parts. What was asked of it stays.
pub proof fn law_renewed_conditions_hold_nothing(
    exit: DistanceEntryAndExitCondition,
    snapped: DistanceEntryAndSnappedExitCondition,
    confirmation: ConfirmationModel,
    parts: Seq<ConditionModel>,
)
    ensures
        renewed(ConditionModel::EntryAndExit(exit)) == ConditionModel::EntryAndExit(
            DistanceEntryAndExitCondition { has_reached_end_of_current_step: false, ..exit },
        ),
        renewed(ConditionModel::EntryAndSnappedExit(snapped))
            == ConditionModel::EntryAndSnappedExit(
            DistanceEntryAndSnappedExitCondition {
                has_reached_end_of_current_step: false,
                ..snapped
            },
        ),
        renewed(ConditionModel::UTurnConfirmation(confirmation))
            == ConditionModel::UTurnConfirmation(
            ConfirmationModel {
                candidate_is_uturn: None,
                candidate_successor: None,
                confirmation_active: false,
                movement_anchor: None,
                confirmation_count: 0,
                ..confirmation
            },
        ),
        renewed(ConditionModel::Or(parts)) is Or,
        renewed(ConditionModel::And(parts)) is And,
        renewed(ConditionModel::Or(parts))->Or_0.len() == parts.len(),
        renewed(ConditionModel::And(parts))->And_0.len() == parts.len(),
        forall|i: int|
            0 <= i < parts.len() ==> #[trigger] renewed(ConditionModel::Or(parts))->Or_0[i]
                == renewed(parts[i]),
        forall|i: int|
            0 <= i < parts.len() ==> #[trigger] renewed(ConditionModel::And(parts))->And_0[i]
                == renewed(parts[i]),
{
}

/// The parts of a composite ask each for its own, in their order.
pub proof fn law_composites_ask_for_every_part(
    parts: Seq<ConditionModel>,
    trip: TripModel,
    i: int,
)
    requires
        0 <= i < parts.len(),
    ensures
        inquiry_of(ConditionModel::Or(parts), trip) is Several,
        inquiry_of(ConditionModel::And(parts), trip) is Several,
        inquiry_of(ConditionModel::Or(parts), trip)->Several_0.len() == parts.len(),
        inquiry_of(ConditionModel::And(parts), trip)->Several_0.len() == parts.len(),
        inquiry_of(ConditionModel::Or(parts), trip)->Several_0[i] == inquiry_of(parts[i], trip),
        inquiry_of(ConditionModel::And(parts), trip)->Several_0[i] == inquiry_of(parts[i], trip),
{
}

/// Each part of a composite decides on its own part of the evidence.
pub proof fn law_evidence_is_handed_to_its_part(
    left: ConditionModel,
    right: ConditionModel,
    trip: TripModel,
    first: EvidenceModel,
    second: EvidenceModel,
)
    ensures
        ({
            let both = seq![left, right];
            let evidence = EvidenceModel::Several(seq![first, second]);
            &&& decision(ConditionModel::Or(both), trip, evidence).0 == (decision(
                left,
                trip,
                first,
            ).0 || decision(right, trip, second).0)
            &&& decision(ConditionModel::And(both), trip, evidence).0 == (decision(
                left,
                trip,
                first,
            ).0 && decision(right, trip, second).0)
        }),
{
    let both = seq![left, right];
    let evidence = EvidenceModel::Several(seq![first, second]);
    law_composites_combine(both, trip, evidence);
    assert(evidence.part(0) == first);
    assert(evidence.part(1) == second);
    assert(both[0] == left && both[1] == right);
    assert(decision(both[0], trip, evidence.part(0)) == decision(left, trip, first));
    assert(decision(both[1], trip, evidence.part(1)) == decision(right, trip, second));
}

/// Evidence of several parts has each part by its number; beyond them, and of any other
/// evidence, there is no part.
pub proof fn law_evidence_has_no_part_beyond_its_parts(evidence: EvidenceModel, i: int)
    ensures
        match evidence {
            EvidenceModel::Several(parts) => {
                &&& 0 <= i < parts.len() ==> evidence.part(i) == parts[i]
                &&& i < 0 || i >= parts.len() ==> evidence.part(i) == EvidenceModel::Nothing
            },
            _ => evidence.part(i) == EvidenceModel::Nothing,
        },
{
}

/// To tell whether the reached end is left on the line, the deviation of where the user is
/// from the line over the next steps is asked for. It is not asked for on the last step, nor
/// without an accurate fix.
pub proof fn law_a_reached_end_asks_for_the_deviation_from_the_line(
    condition: DistanceEntryAndSnappedExitCondition,
    trip: TripModel,
)
    requires
        condition.has_reached_end_of_current_step,
    ensures
        ({
            let asked = condition.asks(trip);
            let is_accurate = trip.location() is Some && !Binary64::from_integer(
                condition.minimum_horizontal_accuracy as u128,
            ).less(trip.location()->0.horizontal_accuracy);
            &&& !is_accurate || trip.steps().len() <= 1 ==> asked == InquiryModel::Nothing
            &&& is_accurate && trip.steps().len() > 1 ==> {
                &&& asked is SnappedDeviation
                &&& asked->SnappedDeviation_position == trip.position()->0
                &&& asked->line == joined_line(trip.steps(), condition.reach(trip).0 + 1)
            }
        }),
{
}

/// A bearing is taken in one turn, where it is a finite number. The angle between two of them
/// is how far their difference is from a half turn when it is turned by one and a half.
pub proof fn law_bearings_are_taken_in_one_turn(leg: Leg, a: Binary64, b: Binary64)
    ensures
        ({
            let full_turn = number(0x4076_8000_0000_0000);
            let half_turn = number(0x4066_8000_0000_0000);
            let turn_and_a_half = number(0x4080_e000_0000_0000);
            &&& leg.bearing_degrees.is_finite() ==> turned_bearing(leg) == Some(
                leg.bearing_degrees.plus(full_turn).remainder(full_turn),
            )
            &&& !leg.bearing_degrees.is_finite() ==> turned_bearing(leg) is None
            &&& angle(a, b) == a.minus(b).plus(turn_and_a_half).remainder(full_turn).minus(
                half_turn,
            ).absolute()
        }),
{
}

/// Without evidence of a deviation there is no distance, and without evidence of a movement
/// nothing of it is known.
pub proof fn law_evidence_shows_what_was_measured(evidence: EvidenceModel)
    ensures
        match evidence {
            EvidenceModel::Deviation(distance) => evidence.distance() == distance,
            _ => evidence.distance() is None,
        },
        match evidence {
            EvidenceModel::Movement(movement) => evidence.movement() == movement,
            _ => {
                &&& evidence.movement().movement.distance_metres.is_nan()
                &&& evidence.movement().movement.bearing_degrees.is_nan()
                &&& evidence.movement().current_step.len() == 0
                &&& evidence.movement().next_step.len() == 0
            },
        },
{
}

/// A condition with U-turn confirmation asks for nothing where it has evaluated the fix before
/// or needs no confirmation. Where it watches no movement it asks for what the watched
/// condition asks for, or else for what it would watch first.
pub proof fn law_a_confirmation_asks_for_what_it_watches(
    confirmation: ConfirmationModel,
    trip: Trip,
)
    ensures
        ({
            let under_way = TripModel::Navigating(trip);
            let asked = inquiry_of(ConditionModel::UTurnConfirmation(confirmation), under_way);
            let was_seen = confirmation.last_evaluated_timestamp is Some
                && confirmation.last_evaluated_timestamp->0.instant()
                == trip.user_location.timestamp.instant();
            let is_uturn = confirmation.uturn_confirmation_enabled && trip.visual_instruction
                is Some && trip.visual_instruction->0.maneuver_modifier == Some(
                ManeuverModifier::UTurn,
            );
            let watches = confirmation.candidate_successor is Some
                && confirmation.candidate_is_uturn == Some(is_uturn);
            let is_asked = !was_seen && confirmation.required_confirmations > 0
                && !confirmation.confirmation_active;
            &&& was_seen || confirmation.required_confirmations == 0 ==> asked
                == InquiryModel::Nothing
            &&& is_asked && watches ==> asked == inquiry_of(
                *(confirmation.candidate_successor->0),
                under_way,
            )
            &&& is_asked && !watches && is_uturn ==> asked == inquiry_of(
                ConditionModel::EntryAndSnappedExit(
                    DistanceEntryAndSnappedExitCondition {
                        distance_to_end_of_step: confirmation.distance_to_end_of_step,
                        distance_after_end_of_step: confirmation.distance_after_end_of_step,
                        minimum_horizontal_accuracy: confirmation.minimum_horizontal_accuracy,
                        has_reached_end_of_current_step: false,
                    },
                ),
                under_way,
            )
            &&& is_asked && !watches && !is_uturn ==> asked == inquiry_of(
                ConditionModel::EntryAndExit(
                    DistanceEntryAndExitCondition {
                        distance_to_end_of_step: confirmation.distance_to_end_of_step,
                        distance_after_end_of_step: confirmation.distance_after_end_of_step,
                        minimum_horizontal_accuracy: confirmation.minimum_horizontal_accuracy,
                        has_reached_end_of_current_step: false,
                    },
                ),
                under_way,
            )
        }),
{
    reveal_with_fuel(inquiry_of, 2);
}

} // verus!
