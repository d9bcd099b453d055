//! How candidates are chosen from fix to fix: by the best way that led to each.
use vstd::prelude::*;

use crate::binary64::{number, Binary64, ZERO};
use crate::models::UserLocation;
use crate::time::Span;
use crate::uzmatch::snap::{RoutePosition, SnapCandidate};
use crate::uzmatch::temporal::{
    anchor, best_candidate, best_chained, carries_over, chained, jump_terms_of, law_sorting,
    likelier, normalized, offset_endpoint, raised_likelihood, reached, seeds, stably_sorted,
    transition, updated, usable_gap, Frontier, TemporalCandidate,
};
use crate::uzmatch::UzmatchConfig;

verus! {

/// A new candidate is as likely as its best way: the likelihood over one of the carried
/// candidates, and none of them gives a greater one. It has none exactly where no carried
/// candidate leads to it.
pub proof fn law_the_best_way_counts(
    previous: Seq<TemporalCandidate>,
    emission: SnapCandidate,
    interval: Span,
    config: UzmatchConfig,
    raw_distance: Binary64,
    jumps: Seq<Option<Binary64>>,
    n: nat,
)
    ensures
        match best_chained(previous, emission, interval, config, raw_distance, jumps, n) {
            Some(best) => {
                &&& exists|p: int|
                    0 <= p < n && #[trigger] chained(
                        previous[p],
                        emission,
                        interval,
                        config,
                        raw_distance,
                        jumps[p],
                    ) == Some(best)
                &&& forall|p: int|
                    0 <= p < n ==> (#[trigger] chained(
                        previous[p],
                        emission,
                        interval,
                        config,
                        raw_distance,
                        jumps[p],
                    ) matches Some(score) ==> score.total_rank() <= best.total_rank())
            },
            None => forall|p: int|
                0 <= p < n ==> #[trigger] chained(
                    previous[p],
                    emission,
                    interval,
                    config,
                    raw_distance,
                    jumps[p],
                ) is None,
        },
    decreases n,
{
    if n > 0 {
        let m = (n - 1) as nat;
        law_the_best_way_counts(previous, emission, interval, config, raw_distance, jumps, m);
        let last = chained(
            previous[n - 1],
            emission,
            interval,
            config,
            raw_distance,
            jumps[n - 1],
        );
        let before = best_chained(previous, emission, interval, config, raw_distance, jumps, m);
        let best = best_chained(previous, emission, interval, config, raw_distance, jumps, n);
        if best is Some && best == before {
            let p = choose|p: int|
                0 <= p < m && #[trigger] chained(
                    previous[p],
                    emission,
                    interval,
                    config,
                    raw_distance,
                    jumps[p],
                ) == before;
            assert(chained(
                previous[p],
                emission,
                interval,
                config,
                raw_distance,
                jumps[p],
            ) == best);
        } else if best is Some {
            assert(last == best);
        }
    }
}

/// The likelihood over a carried candidate is that one's, that of the way between them and
/// that of the new candidate itself, added up; there is none without a way.
pub proof fn law_likelihoods_add_up_along_a_way(
    previous: TemporalCandidate,
    emission: SnapCandidate,
    interval: Span,
    config: UzmatchConfig,
    raw_distance: Binary64,
    jump: Option<Binary64>,
)
    ensures
        match transition(
            previous.route_position,
            emission.route_position,
            interval,
            config,
            raw_distance,
            jump,
        ) {
            Some(way) => chained(previous, emission, interval, config, raw_distance, jump) == Some(
                previous.accumulated_log_likelihood.plus(way).plus(
                    emission.emission_log_likelihood,
                ),
            ),
            None => chained(previous, emission, interval, config, raw_distance, jump) is None,
        },
{
}

/// The metres that can be made in an interval, or in two seconds where it is shorter: twice
/// 200 kilometres per hour.
pub open spec fn farthest(interval: Span) -> Binary64 {
    let counted = if interval.nanos < 2_000_000_000 {
        Span { nanos: 2_000_000_000 }
    } else {
        interval
    };
    number(0x404b_c71c_71c7_1c72).times(number(0x4000_0000_0000_0000)).times(counted.as_seconds())
}

/// A way leads from one position to another where it does not lead back by more than the
/// deviation of a fix, is not longer than can be made, and was measured. It is the less
/// likely the more its length differs from the distance between the fixes, by half a metre's
/// logarithm each, and the less likely the jump.
pub proof fn law_a_way_is_as_likely_as_it_is_straight(
    previous: RoutePosition,
    current: RoutePosition,
    interval: Span,
    config: UzmatchConfig,
    raw_distance: Binary64,
    jump: Option<Binary64>,
)
    ensures
        ({
            let delta = current.distance_along_route_meters.minus(
                previous.distance_along_route_meters,
            );
            let length = if delta.less(number(ZERO)) {
                number(ZERO)
            } else {
                delta
            };
            let way = transition(previous, current, interval, config, raw_distance, jump);
            &&& way is Some <==> {
                &&& delta.is_finite()
                &&& !delta.less(config.snap_position_stddev_m.negated())
                &&& !farthest(interval).less(length)
                &&& raw_distance.is_finite()
                &&& jump is Some
            }
            &&& way is Some ==> way->0 == raw_distance.minus(length).absolute().negated().over(
                number(0x4000_0000_0000_0000),
            ).plus(jump->0)
        }),
{
}

/// Among the reached candidates stands each new one that a way leads to, with the likelihood
/// of its best way, and no other.
pub proof fn law_reached_are_those_with_a_way(
    previous: Seq<TemporalCandidate>,
    emissions: Seq<SnapCandidate>,
    interval: Span,
    config: UzmatchConfig,
    raw_distance: Binary64,
    table: Seq<Seq<Option<Binary64>>>,
    n: nat,
    e: int,
)
    requires
        n <= emissions.len(),
        0 <= e < n,
    ensures
        ({
            let found = reached(previous, emissions, interval, config, raw_distance, table, n);
            let best = best_chained(
                previous,
                emissions[e],
                interval,
                config,
                raw_distance,
                table[e],
                previous.len(),
            );
            &&& best is Some ==> found.contains(
                TemporalCandidate {
                    route_position: emissions[e].route_position,
                    accumulated_log_likelihood: best->0,
                },
            )
            &&& found.len() == 0 ==> best is None
            &&& forall|i: int|
                0 <= i < found.len() ==> is_reached(
                    previous,
                    emissions,
                    interval,
                    config,
                    raw_distance,
                    table,
                    #[trigger] found[i],
                )
        }),
    decreases n,
{
    let m = (n - 1) as nat;
    let found = reached(previous, emissions, interval, config, raw_distance, table, n);
    let before = reached(previous, emissions, interval, config, raw_distance, table, m);
    let last = best_chained(
        previous,
        emissions[n - 1],
        interval,
        config,
        raw_distance,
        table[n - 1],
        previous.len(),
    );
    if m > 0 {
        law_reached_are_those_with_a_way(
            previous,
            emissions,
            interval,
            config,
            raw_distance,
            table,
            m,
            if e < m {
                e
            } else {
                0
            },
        );
    }
    if last is Some {
        let new = TemporalCandidate {
            route_position: emissions[n - 1].route_position,
            accumulated_log_likelihood: last->0,
        };
        assert(found == before.push(new));
        assert(found[found.len() - 1] == new);
        assert(is_reached(previous, emissions, interval, config, raw_distance, table, new)) by {
            assert(is_reached_by(
                previous,
                emissions,
                interval,
                config,
                raw_distance,
                table,
                new,
                n - 1,
            ));
        }
        assert forall|x: TemporalCandidate| before.contains(x) implies found.contains(x) by {
            let k = choose|k: int| 0 <= k < before.len() && before[k] == x;
            assert(found[k] == x);
        }
        assert forall|i: int| 0 <= i < found.len() implies is_reached(
            previous,
            emissions,
            interval,
            config,
            raw_distance,
            table,
            #[trigger] found[i],
        ) by {
            if i < before.len() {
                assert(found[i] == before[i]);
            }
        }
    }
}

/// Whether a candidate is new candidate `e` with the likelihood of its best way.
pub open spec fn is_reached_by(
    previous: Seq<TemporalCandidate>,
    emissions: Seq<SnapCandidate>,
    interval: Span,
    config: UzmatchConfig,
    raw_distance: Binary64,
    table: Seq<Seq<Option<Binary64>>>,
    candidate: TemporalCandidate,
    e: int,
) -> bool {
    &&& 0 <= e < emissions.len()
    &&& candidate.route_position == emissions[e].route_position
    &&& best_chained(
        previous,
        emissions[e],
        interval,
        config,
        raw_distance,
        table[e],
        previous.len(),
    ) == Some(candidate.accumulated_log_likelihood)
}

/// Whether a candidate is one of the new ones with the likelihood of its best way.
pub open spec fn is_reached(
    previous: Seq<TemporalCandidate>,
    emissions: Seq<SnapCandidate>,
    interval: Span,
    config: UzmatchConfig,
    raw_distance: Binary64,
    table: Seq<Seq<Option<Binary64>>>,
    candidate: TemporalCandidate,
) -> bool {
    exists|e: int|
        #[trigger] is_reached_by(
            previous,
            emissions,
            interval,
            config,
            raw_distance,
            table,
            candidate,
            e,
        )
}

/// The likelier candidate comes first, and of two alike the one on the earlier segment.
pub proof fn law_the_likelier_comes_first(left: TemporalCandidate, right: TemporalCandidate)
    requires
        !left.accumulated_log_likelihood.is_nan(),
        !right.accumulated_log_likelihood.is_nan(),
    ensures
        right.accumulated_log_likelihood.less(left.accumulated_log_likelihood) ==> likelier(
            left,
            right,
        ) && !likelier(right, left),
        left.accumulated_log_likelihood == right.accumulated_log_likelihood ==> (likelier(
            left,
            right,
        ) <==> left.route_position.segment_index < right.route_position.segment_index),
{
}

/// Normalizing keeps the first ten in order at most, each where it was, with its likelihood
/// less that of the first.
pub proof fn law_normalizing_keeps_the_first_ten(candidates: Seq<TemporalCandidate>, i: int)
    requires
        0 <= i < normalized(candidates).len(),
    ensures
        ({
            let sorted = stably_sorted(candidates, candidates.len());
            let kept = normalized(candidates);
            &&& kept.len() == (if candidates.len() < 10 {
                candidates.len()
            } else {
                10
            })
            &&& kept[i].route_position == sorted[i].route_position
            &&& kept[i].accumulated_log_likelihood == sorted[i].accumulated_log_likelihood.minus(
                sorted[0].accumulated_log_likelihood,
            )
        }),
{
    law_sorting(candidates, candidates.len());
}

/// A fix without ones before it seeds the candidates with its own, each as likely as it is
/// by itself.
pub proof fn law_seeds_are_the_fixs_own(emissions: Seq<SnapCandidate>, i: int)
    requires
        0 <= i < emissions.len(),
    ensures
        seeds(emissions).len() == emissions.len(),
        seeds(emissions)[i].route_position == emissions[i].route_position,
        seeds(emissions)[i].accumulated_log_likelihood == emissions[i].emission_log_likelihood,
{
}

/// Whether a fix comes after another and within five seconds of it.
pub open spec fn follows_closely(previous: UserLocation, location: UserLocation) -> bool {
    0 < location.timestamp.instant() - previous.timestamp.instant() <= 5_000_000_000
}

/// Candidates are carried over from a fix to one that follows it closely.
pub proof fn law_candidates_are_carried_over_a_short_gap(
    previous: Option<UserLocation>,
    location: UserLocation,
)
    ensures
        usable_gap(previous, location) is Some <==> previous is Some && follows_closely(
            previous->0,
            location,
        ),
        usable_gap(previous, location) is Some ==> {
            let (fix, gap) = usable_gap(previous, location)->0;
            fix == previous->0 && gap.nanos == location.timestamp.instant()
                - fix.timestamp.instant()
        },
{
}

/// The candidates after a fix continue those before it exactly where they are carried over
/// to it and a way leads from one of them to one of the fix's own. They are then the reached
/// ones, and otherwise the fix's own, normalized.
pub proof fn law_candidates_continue_where_a_way_leads_on(
    state: Frontier,
    location: UserLocation,
    emissions: Seq<SnapCandidate>,
    config: UzmatchConfig,
    raw_distance: Binary64,
    table: Seq<Seq<Option<Binary64>>>,
)
    requires
        emissions.len() > 0,
    ensures
        ({
            let (after, continued) = updated(
                state,
                location,
                emissions,
                config,
                raw_distance,
                table,
            );
            let carries = 1 <= state.candidates.len() <= 10 && state.previous_location is Some
                && follows_closely(state.previous_location->0, location);
            let gap = Span {
                nanos: (location.timestamp.instant()
                    - state.previous_location->0.timestamp.instant()) as u128,
            };
            let found = reached(
                normalized(state.candidates),
                emissions,
                gap,
                config,
                raw_distance,
                table,
                emissions.len(),
            );
            &&& continued <==> carries && found.len() > 0
            &&& after.candidates == normalized(
                if continued {
                    found
                } else {
                    seeds(emissions)
                },
            )
            &&& after.previous_location == Some(location)
        }),
{
    law_sorting(state.candidates, state.candidates.len());
}

/// A fix without candidates of its own ends the chain: it leaves none, continues none, and
/// needs no transitions. Transitions are needed exactly where a fix has candidates and some are
/// carried over to it.
pub proof fn law_a_fix_without_candidates_ends_the_chain(
    state: Frontier,
    location: UserLocation,
    emissions: Seq<SnapCandidate>,
    config: UzmatchConfig,
    raw_distance: Binary64,
    table: Seq<Seq<Option<Binary64>>>,
)
    ensures
        ({
            let (after, continued) = updated(
                state,
                location,
                emissions,
                config,
                raw_distance,
                table,
            );
            &&& emissions.len() == 0 ==> {
                &&& !continued
                &&& after.candidates.len() == 0
                &&& after.previous_location is None
            }
            &&& carries_over(state, location, emissions) <==> {
                &&& emissions.len() > 0
                &&& 1 <= state.candidates.len() <= 10
                &&& state.previous_location is Some
                &&& follows_closely(state.previous_location->0, location)
            }
        }),
{
    law_sorting(state.candidates, state.candidates.len());
}

/// The candidates for a fix are sought around the likeliest carried one, and of those alike
/// around the one on the earliest segment; around none where none are carried over.
pub proof fn law_the_anchor_is_the_likeliest(state: Frontier, location: UserLocation)
    ensures
        anchor(state, location) is Some <==> 1 <= state.candidates.len() <= 10
            && state.previous_location is Some && follows_closely(
            state.previous_location->0,
            location,
        ),
        anchor(state, location) matches Some(position) ==> exists|b: int|
            0 <= b < state.candidates.len() && position == (
            #[trigger] state.candidates[b]).route_position && forall|i: int|
                0 <= i < state.candidates.len() ==> is_at_least(
                    state.candidates[b],
                    #[trigger] state.candidates[i],
                ),
{
    if anchor(state, location) is Some {
        lemma_best_candidate(state.candidates, state.candidates.len());
        let b = choose|b: int|
            0 <= b < state.candidates.len() && best_candidate(
                state.candidates,
                state.candidates.len(),
            ) == #[trigger] state.candidates[b];
        assert(state.candidates[b].route_position == anchor(state, location)->0);
    }
}

/// Whether a candidate is likelier than another, or alike and not on a later segment.
pub open spec fn is_at_least(best: TemporalCandidate, other: TemporalCandidate) -> bool {
    let mine = best.accumulated_log_likelihood.total_rank();
    let theirs = other.accumulated_log_likelihood.total_rank();
    mine > theirs || (mine == theirs && best.route_position.segment_index
        <= other.route_position.segment_index)
}

proof fn lemma_best_candidate(candidates: Seq<TemporalCandidate>, n: nat)
    requires
        1 <= n <= candidates.len(),
    ensures
        exists|b: int| 0 <= b < n && best_candidate(candidates, n) == #[trigger] candidates[b],
        forall|i: int|
            0 <= i < n ==> is_at_least(best_candidate(candidates, n), #[trigger] candidates[i]),
    decreases n,
{
    if n > 1 {
        lemma_best_candidate(candidates, (n - 1) as nat);
        let b = choose|b: int|
            0 <= b < n - 1 && best_candidate(candidates, (n - 1) as nat)
                == #[trigger] candidates[b];
        if likelier(best_candidate(candidates, (n - 1) as nat), candidates[n - 1]) {
            assert(best_candidate(candidates, n) == candidates[b]);
        } else {
            assert(best_candidate(candidates, n) == candidates[n - 1]);
        }
    } else {
        assert(best_candidate(candidates, n) == candidates[0]);
    }
}

/// The change of offset leads from the first fix by how much the offset of the matched
/// position from the fix has changed, in each direction.
pub proof fn law_the_offset_changes_by_the_difference(
    previous: RoutePosition,
    current: RoutePosition,
    before: UserLocation,
    location: UserLocation,
)
    ensures
        ({
            let end = offset_endpoint(previous, current, before, location);
            let from = before.coordinates;
            let first_lat = previous.coordinates.lat.minus(from.lat);
            let first_lng = previous.coordinates.lng.minus(from.lng);
            let then_lat = current.coordinates.lat.minus(location.coordinates.lat);
            let then_lng = current.coordinates.lng.minus(location.coordinates.lng);
            &&& end.lat == from.lat.plus(first_lat).minus(then_lat)
            &&& end.lng == from.lng.plus(first_lng).minus(then_lng)
        }),
{
}

/// A jump is judged where the change, both accuracies and what speeds there are are finite:
/// by the metres of the change, over as many times more as the worse accuracy is above 6.5
/// metres, to the power of the mean speed over nine metres per second where it is slower.
pub proof fn law_a_jump_is_judged_by_speed_and_accuracy(
    change: Binary64,
    before: UserLocation,
    location: UserLocation,
)
    ensures
        ({
            let terms = jump_terms_of(change, before, location);
            let speed = if before.speed is Some && location.speed is Some {
                before.speed->0.value.plus(location.speed->0.value).absolute().over(
                    number(0x4000_0000_0000_0000),
                )
            } else {
                number(ZERO)
            };
            let worse = if before.horizontal_accuracy.less(location.horizontal_accuracy) {
                location.horizontal_accuracy
            } else {
                before.horizontal_accuracy
            };
            let metre = number(0x3ff0_0000_0000_0000);
            let good = number(0x401a_0000_0000_0000);
            let fast = number(0x4022_0000_0000_0000);
            &&& terms is Some <==> {
                &&& change.is_finite()
                &&& before.horizontal_accuracy.is_finite()
                &&& location.horizontal_accuracy.is_finite()
                &&& before.speed is Some ==> before.speed->0.value.is_finite()
                &&& location.speed is Some ==> location.speed->0.value.is_finite()
                &&& speed.is_finite()
            }
            &&& terms is Some ==> {
                &&& terms->0.exponent == change.negated().over(
                    if good.less(worse) {
                        metre.times(worse).over(good)
                    } else {
                        metre
                    },
                )
                &&& terms->0.power == (if speed.less(fast) {
                    Some(speed.over(fast))
                } else {
                    None
                })
            }
        }),
{
}

/// The likelihood of a jump is held above the least by mixing that in.
pub proof fn law_the_least_likelihood_is_mixed_in(corrected: Binary64)
    ensures
        ({
            let least = number(0x3f21_0b21_8c0f_e53a);
            let mixed = number(0x3ff0_0000_0000_0000).minus(least).times(corrected).plus(least);
            raised_likelihood(corrected) == (if mixed.is_finite() {
                Some(mixed)
            } else {
                None
            })
        }),
{
}

} // verus!
