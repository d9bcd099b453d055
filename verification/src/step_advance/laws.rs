//! What holds of all conditions.
use vstd::prelude::*;

use crate::binary64::Binary64;
use crate::step_advance::conditions::{
    all_advance, any_advances, decision, inquiry_of, part_decisions, renewed, successors,
    too_inaccurate, ConditionModel, ConfirmationModel, DeviationCalculationPolicy,
    DistanceEntryAndExitCondition, DistanceEntryAndSnappedExitCondition,
    DistanceFromStepCondition, DistanceToEndOfStepCondition, EvidenceModel, InquiryModel,
};
use crate::trip::{bound_position, TripModel};

verus! {

/// The manual condition never advances.
pub proof fn law_manual_never_advances(trip: TripModel, evidence: EvidenceModel)
    ensures
        decision(ConditionModel::Manual, trip, evidence) == (false, ConditionModel::Manual),
{
}

/// A renewed condition is as good as new.
pub proof fn law_renewing_twice_changes_nothing(condition: ConditionModel)
    ensures
        renewed(renewed(condition)) == renewed(condition),
    decreases condition,
{
    match condition {
        ConditionModel::Or(parts) => {
            let once = renewed(condition)->Or_0;
            assert forall|i: int| 0 <= i < parts.len() implies renewed(once[i]) == once[i] by {
                law_renewing_twice_changes_nothing(parts[i]);
            }
            assert(renewed(renewed(condition))->Or_0 =~= once);
        },
        ConditionModel::And(parts) => {
            let once = renewed(condition)->And_0;
            assert forall|i: int| 0 <= i < parts.len() implies renewed(once[i]) == once[i] by {
                law_renewing_twice_changes_nothing(parts[i]);
            }
            assert(renewed(renewed(condition))->And_0 =~= once);
        },
        _ => {},
    }
}

/// A condition that advances starts anew, so that nothing it has seen leaks into the
/// next step. The one with U-turn confirmation remembers only the fix that it
/// advanced on.
pub proof fn law_advancing_renews(
    condition: ConditionModel,
    trip: TripModel,
    evidence: EvidenceModel,
)
    requires
        decision(condition, trip, evidence).0,
    ensures
        decision(condition, trip, evidence).1 == (match condition {
            ConditionModel::UTurnConfirmation(confirmation) => ConditionModel::UTurnConfirmation(
                confirmation.seeing(trip).fresh(),
            ),
            _ => renewed(condition),
        }),
{
}

/// Any of the parts advances, or all of them, as the condition says.
pub proof fn law_composites_combine(
    parts: Seq<ConditionModel>,
    trip: TripModel,
    evidence: EvidenceModel,
)
    ensures
        decision(ConditionModel::Or(parts), trip, evidence).0 <==> exists|i: int|
            0 <= i < parts.len() && (#[trigger] decision(parts[i], trip, evidence.part(i))).0,
        decision(ConditionModel::And(parts), trip, evidence).0 <==> forall|i: int|
            0 <= i < parts.len() ==> (#[trigger] decision(parts[i], trip, evidence.part(i))).0,
{
    let results = part_decisions(parts, trip, evidence);
    assert forall|i: int| 0 <= i < parts.len() implies #[trigger] results[i] == decision(
        parts[i],
        trip,
        evidence.part(i),
    ) by {
    }
    if any_advances(results) {
        let i = choose|i: int| 0 <= i < results.len() && (#[trigger] results[i]).0;
        assert(decision(parts[i], trip, evidence.part(i)).0);
    }
    if exists|i: int|
        0 <= i < parts.len() && (#[trigger] decision(parts[i], trip, evidence.part(i))).0 {
        let i = choose|i: int|
            0 <= i < parts.len() && (#[trigger] decision(parts[i], trip, evidence.part(i))).0;
        assert(results[i].0);
    }
    if all_advance(results) {
        assert forall|i: int| 0 <= i < parts.len() implies (#[trigger] decision(
            parts[i],
            trip,
            evidence.part(i),
        )).0 by {
            assert(results[i].0);
        }
    }
    if forall|i: int|
        0 <= i < parts.len() ==> (#[trigger] decision(parts[i], trip, evidence.part(i))).0 {
        assert forall|i: int| 0 <= i < results.len() implies (#[trigger] results[i]).0 by {
            assert(decision(parts[i], trip, evidence.part(i)).0);
        }
    }
}

/// A composite that does not advance keeps what each part has seen.
pub proof fn law_composites_keep_their_parts(
    parts: Seq<ConditionModel>,
    trip: TripModel,
    evidence: EvidenceModel,
    i: int,
)
    requires
        0 <= i < parts.len(),
    ensures
        !decision(ConditionModel::Or(parts), trip, evidence).0 ==> decision(
            ConditionModel::Or(parts),
            trip,
            evidence,
        ).1->Or_0[i] == decision(parts[i], trip, evidence.part(i)).1,
        !decision(ConditionModel::And(parts), trip, evidence).0 ==> decision(
            ConditionModel::And(parts),
            trip,
            evidence,
        ).1->And_0[i] == decision(parts[i], trip, evidence.part(i)).1,
{
    let results = part_decisions(parts, trip, evidence);
    assert(successors(results)[i] == results[i].1);
}

/// Reaching the end of a step never advances by itself: it takes a later fix that has
/// left the end.
pub proof fn law_reaching_the_end_never_advances(
    ordinary: DistanceEntryAndExitCondition,
    snapped: DistanceEntryAndSnappedExitCondition,
    trip: TripModel,
    evidence: EvidenceModel,
)
    requires
        !ordinary.has_reached_end_of_current_step,
        !snapped.has_reached_end_of_current_step,
    ensures
        !decision(ConditionModel::EntryAndExit(ordinary), trip, evidence).0,
        !decision(ConditionModel::EntryAndSnappedExit(snapped), trip, evidence).0,
{
}

/// A fix that has not left the end of the step far enough does not advance, and the
/// end stays reached.
pub proof fn law_staying_at_the_end_does_not_advance(
    condition: DistanceEntryAndExitCondition,
    trip: TripModel,
    deviation: Binary64,
)
    requires
        condition.has_reached_end_of_current_step,
        deviation.less(Binary64::from_integer(condition.distance_after_end_of_step as u128)),
    ensures
        decision(
            ConditionModel::EntryAndExit(condition),
            trip,
            EvidenceModel::Deviation(Some(deviation)),
        ) == (false, ConditionModel::EntryAndExit(condition)),
{
}

/// Off the route altogether, a condition that decides only on the route does not
/// advance; off the current step, neither does one that decides only on the step.
pub proof fn law_deviation_suspends(
    condition: DistanceFromStepCondition,
    trip: TripModel,
    evidence: EvidenceModel,
)
    requires
        trip.route_deviation() is Some,
        ({
            let deviation = trip.route_deviation()->0;
            ||| condition.calculation_policy == DeviationCalculationPolicy::WhileOnRoute
                && deviation.is_completely_off_route()
            ||| condition.calculation_policy == DeviationCalculationPolicy::WhileOnCurrentStep
                && deviation.is_deviated_from_current_step()
        }),
    ensures
        !decision(ConditionModel::DistanceFromStep(condition), trip, evidence).0,
{
}

/// A fix that is less accurate than a condition accepts never advances it.
pub proof fn law_inaccurate_fix_never_advances(
    condition: ConditionModel,
    minimum: u16,
    trip: TripModel,
    evidence: EvidenceModel,
)
    requires
        trip.location() is Some,
        too_inaccurate(trip.location()->0, minimum),
        match condition {
            ConditionModel::DistanceToEndOfStep(distance) => distance.minimum_horizontal_accuracy
                == minimum,
            ConditionModel::DistanceFromStep(distance) => distance.minimum_horizontal_accuracy
                == minimum,
            ConditionModel::EntryAndExit(entry_exit) => entry_exit.minimum_horizontal_accuracy
                == minimum,
            ConditionModel::EntryAndSnappedExit(entry_exit) => {
                entry_exit.minimum_horizontal_accuracy == minimum
            },
            _ => false,
        },
    ensures
        !decision(condition, trip, evidence).0,
{
}

/// A fix with the timestamp of the last evaluated one changes nothing.
pub proof fn law_same_fix_changes_nothing(
    confirmation: ConfirmationModel,
    trip: TripModel,
    evidence: EvidenceModel,
)
    requires
        confirmation.has_seen(trip),
    ensures
        decision(ConditionModel::UTurnConfirmation(confirmation), trip, evidence) == (
            false,
            ConditionModel::UTurnConfirmation(confirmation),
        ),
{
}

/// Deciding twice on one fix decides once: the second time nothing changes.
pub proof fn law_deciding_twice_on_one_fix(
    confirmation: ConfirmationModel,
    trip: TripModel,
    evidence: EvidenceModel,
    again: EvidenceModel,
)
    requires
        trip.location() is Some,
    ensures
        ({
            let after = decision(
                ConditionModel::UTurnConfirmation(confirmation),
                trip,
                evidence,
            ).1;
            decision(after, trip, again) == (false, after)
        }),
{
}

/// With no confirmations required the condition never advances.
pub proof fn law_no_confirmations_never_advances(
    confirmation: ConfirmationModel,
    trip: TripModel,
    evidence: EvidenceModel,
)
    requires
        confirmation.required_confirmations == 0,
    ensures
        !decision(ConditionModel::UTurnConfirmation(confirmation), trip, evidence).0,
{
}

/// At a U-turn the watched condition alone never advances: it starts watching the
/// movement, and only enough movements that agree with the next step advance.
pub proof fn law_uturn_needs_confirmations(
    confirmation: ConfirmationModel,
    trip: TripModel,
    evidence: EvidenceModel,
)
    requires
        confirmation.at_uturn(trip),
        decision(ConditionModel::UTurnConfirmation(confirmation), trip, evidence).0,
    ensures
        confirmation.confirmation_active,
        confirmation.movement_anchor is Some,
        confirmation.confirmation_count + 1 >= confirmation.required_confirmations > 0,
{
}

/// A condition asks for all that it needs: where it asks for nothing, its decision
/// does not depend on the evidence.
pub proof fn law_conditions_ask_for_what_they_need(
    condition: ConditionModel,
    trip: TripModel,
    first: EvidenceModel,
    second: EvidenceModel,
)
    requires
        inquiry_of(condition, trip) == InquiryModel::Nothing,
    ensures
        decision(condition, trip, first) == decision(condition, trip, second),
    decreases condition,
{
    match condition {
        ConditionModel::UTurnConfirmation(confirmation) => {
            let uturn = confirmation.at_uturn(trip);
            if confirmation.evaluates(trip) && !confirmation.confirmation_active
                && confirmation.keeps_candidate(uturn) {
                law_conditions_ask_for_what_they_need(
                    *confirmation.candidate_successor->0,
                    trip,
                    first,
                    second,
                );
            }
        },
        _ => {},
    }
}

/// A fix that is bound to the route advances by its position there, however far the fix
/// itself is: that is the position from which a condition asks for distances.
pub proof fn law_bound_fix_is_measured_at_its_position(
    to_end: DistanceToEndOfStepCondition,
    from_step: DistanceFromStepCondition,
    snapped: DistanceEntryAndSnappedExitCondition,
    trip: TripModel,
)
    requires
        trip is Navigating,
        bound_position(trip->Navigating_0.uzmatch) is Some,
    ensures
        ({
            let bound = bound_position(trip->Navigating_0.uzmatch)->0.coordinates;
            &&& (inquiry_of(ConditionModel::DistanceToEndOfStep(to_end), trip)
                matches InquiryModel::WithinEndOfStep { position, .. } ==> position == bound)
            &&& (inquiry_of(ConditionModel::DistanceFromStep(from_step), trip)
                matches InquiryModel::DeviationFromStep { position } ==> position == bound)
            &&& (inquiry_of(ConditionModel::EntryAndSnappedExit(snapped), trip)
                matches InquiryModel::SnappedDeviation { position, .. } ==> position == bound)
        }),
{
}

} // verus!
