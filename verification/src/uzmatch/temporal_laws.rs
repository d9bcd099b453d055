//! What holds of the candidates that are carried from fix to fix.
use vstd::arithmetic::mul::lemma_mul_is_associative;
use vstd::arithmetic::power2::{
    lemma2_to64, lemma2_to64_rest, lemma_pow2_adds, lemma_pow2_pos, lemma_pow2_strictly_increases,
    pow2,
};
use vstd::prelude::*;

use crate::arithmetic::{lemma_signed_units_grow, lemma_units_grow, signed_units, PLACES};
use crate::binary64::{number, Binary64, INFINITE_MAGNITUDE, TWO, ZERO};
use crate::models::UserLocation;
use crate::rounding::units;
use crate::rounding_bounds::{
    law_difference_keeps_order, law_product_is_bounded, law_quotient_is_bounded, law_sum_is_between,
    law_sum_is_bounded, lemma_integer_is_bounded, lemma_moderate_is_within,
    lemma_nearest_to_the_largest, lemma_negated_units, lemma_units_between_powers, moderate, within,
    LARGEST_POWER, LARGE_POWER,
};
use crate::time::{Span, BILLION_BITS};
use crate::uzmatch::snap::{RoutePosition, SnapCandidate, MAX_SNAP_CANDIDATES};
use crate::uzmatch::temporal::{
    are_logarithms, best_chained, bounded, carried, carries_over, chained, has_shape, in_order,
    is_logarithm, law_normalized_maximum_is_zero, law_sorting, likelier, longest_path, no_frontier,
    normalized, reached, seeds, stably_sorted, transition, updated, usable_gap, Frontier,
    TemporalCandidate, LARGEST_LOGARITHM, MAXIMAL_POSSIBLE_SPEED_MPS, MAX_SIGNAL_GAP,
    MINIMUM_RELIABLE_INTERVAL, PATH_LENGTH_DIFFERENCE_MEAN_M,
};
use crate::uzmatch::UzmatchConfig;

verus! {

/// Whether every likelihood of candidates is moderate.
pub open spec fn moderate_candidates(candidates: Seq<TemporalCandidate>) -> bool {
    forall|i: int|
        0 <= i < candidates.len() ==> moderate(
            (#[trigger] candidates[i]).accumulated_log_likelihood,
        )
}

/// Whether every likelihood of a fix's candidates is moderate.
pub open spec fn moderate_emissions(emissions: Seq<SnapCandidate>) -> bool {
    forall|i: int|
        0 <= i < emissions.len() ==> moderate((#[trigger] emissions[i]).emission_log_likelihood)
}

/// Whether a position is one of a fix's candidates.
pub open spec fn is_candidate(position: RoutePosition, emissions: Seq<SnapCandidate>) -> bool {
    exists|e: int|
        0 <= e < emissions.len() && (#[trigger] emissions[e]).route_position == position
}

/// Whether the position of every candidate is one of a fix's candidates.
pub open spec fn all_candidates(
    candidates: Seq<TemporalCandidate>,
    emissions: Seq<SnapCandidate>,
) -> bool {
    forall|i: int|
        0 <= i < candidates.len() ==> is_candidate(
            (#[trigger] candidates[i]).route_position,
            emissions,
        )
}

/// Whether candidates stand in descending order of their likelihoods.
pub open spec fn descending(candidates: Seq<TemporalCandidate>) -> bool {
    forall|i: int, j: int|
        0 <= i < j < candidates.len() ==> (
        #[trigger] candidates[j]).accumulated_log_likelihood.at_most(
            (#[trigger] candidates[i]).accumulated_log_likelihood,
        )
}

/// Whether candidates stand in descending order of their likelihoods, which are finite, and
/// the likeliest has the logarithm zero.
pub open spec fn stand_in_order(candidates: Seq<TemporalCandidate>) -> bool {
    &&& descending(candidates)
    &&& forall|i: int|
        0 <= i < candidates.len() ==> (
        #[trigger] candidates[i]).accumulated_log_likelihood.is_finite()
    &&& candidates.len() > 0 ==> candidates[0].accumulated_log_likelihood == number(ZERO)
}

/// Whether every likelihood of candidates is within a power of two.
spec fn candidates_within(candidates: Seq<TemporalCandidate>, k: nat) -> bool {
    forall|i: int|
        0 <= i < candidates.len() ==> within(
            (#[trigger] candidates[i]).accumulated_log_likelihood,
            k,
        )
}

/// The kept candidates are among those that were sorted.
proof fn lemma_kept_is_among(candidates: Seq<TemporalCandidate>)
    ensures
        ({
            let kept = bounded(stably_sorted(candidates, candidates.len()));
            &&& kept.len() <= candidates.len()
            &&& kept.len() <= MAX_SNAP_CANDIDATES
            &&& candidates.len() > 0 ==> kept.len() > 0
            &&& in_order(kept)
            &&& forall|i: int| 0 <= i < kept.len() ==> candidates.contains(#[trigger] kept[i])
        }),
{
    broadcast use vstd::seq_lib::group_to_multiset_ensures;

    let n = candidates.len();
    law_sorting(candidates, n);
    assert(candidates.subrange(0, n as int) =~= candidates);
    let sorted = stably_sorted(candidates, n);
    let kept = bounded(sorted);
    assert forall|i: int| 0 <= i < kept.len() implies candidates.contains(#[trigger] kept[i]) by {
        assert(kept[i] == sorted[i]);
        assert(sorted.contains(sorted[i]));
        assert(sorted.to_multiset().count(sorted[i]) > 0);
        assert(candidates.to_multiset().count(sorted[i]) > 0);
    }
    assert forall|i: int, j: int| 0 <= i < j < kept.len() implies !likelier(
        #[trigger] kept[j],
        #[trigger] kept[i],
    ) by {
        assert(kept[i] == sorted[i] && kept[j] == sorted[j]);
    }
}

/// Normalizing keeps positions.
proof fn lemma_normalized_positions(
    candidates: Seq<TemporalCandidate>,
    emissions: Seq<SnapCandidate>,
)
    requires
        all_candidates(candidates, emissions),
    ensures
        all_candidates(normalized(candidates), emissions),
        normalized(candidates).len() <= candidates.len(),
        normalized(candidates).len() <= MAX_SNAP_CANDIDATES,
        candidates.len() > 0 ==> normalized(candidates).len() > 0,
{
    lemma_kept_is_among(candidates);
    let kept = bounded(stably_sorted(candidates, candidates.len()));
    assert forall|i: int| 0 <= i < normalized(candidates).len() implies is_candidate(
        (#[trigger] normalized(candidates)[i]).route_position,
        emissions,
    ) by {
        assert(candidates.contains(kept[i]));
        let k = choose|k: int| 0 <= k < candidates.len() && candidates[k] == kept[i];
        assert(is_candidate(candidates[k].route_position, emissions));
    }
}

/// What is reached is among the fix's candidates.
proof fn lemma_reached_positions(
    previous: Seq<TemporalCandidate>,
    emissions: Seq<SnapCandidate>,
    interval: Span,
    config: UzmatchConfig,
    raw_distance: Binary64,
    table: Seq<Seq<Option<Binary64>>>,
    n: nat,
)
    requires
        n <= emissions.len(),
    ensures
        reached(previous, emissions, interval, config, raw_distance, table, n).len() <= n,
        all_candidates(
            reached(previous, emissions, interval, config, raw_distance, table, n),
            emissions,
        ),
    decreases n,
{
    if n > 0 {
        let m = (n - 1) as nat;
        lemma_reached_positions(previous, emissions, interval, config, raw_distance, table, m);
        assert(is_candidate(emissions[n - 1].route_position, emissions));
    }
}

/// After a fix without candidates nothing is kept. After any other the fix is
/// remembered, the kept candidates are some of its own, at least one and no more than
/// it has or than are kept, and they continue those before it only over a gap that is
/// not too long from a state with candidates and not too many.
pub proof fn law_kept_candidates_are_the_fixs_own(
    state: Frontier,
    location: UserLocation,
    emissions: Seq<SnapCandidate>,
    config: UzmatchConfig,
    raw_distance: Binary64,
    table: Seq<Seq<Option<Binary64>>>,
)
    ensures
        ({
            let (after, continued) = updated(
                state,
                location,
                emissions,
                config,
                raw_distance,
                table,
            );
            &&& emissions.len() == 0 ==> after == no_frontier() && !continued
            &&& emissions.len() > 0 ==> after.previous_location == Some(location)
            &&& emissions.len() > 0 ==> 1 <= after.candidates.len()
            &&& after.candidates.len() <= emissions.len()
            &&& after.candidates.len() <= MAX_SNAP_CANDIDATES
            &&& all_candidates(after.candidates, emissions)
            &&& continued ==> 1 <= state.candidates.len() <= MAX_SNAP_CANDIDATES
            &&& continued ==> {
                let gap = location.timestamp.since(state.previous_location->0.timestamp);
                &&& state.previous_location is Some
                &&& gap is Some
                &&& 0 < gap->0.nanos <= Span::from_millis(MAX_SIGNAL_GAP).nanos
            }
        }),
{
    if emissions.len() > 0 {
        let continued = if carries_over(state, location, emissions) {
            reached(
                carried(state),
                emissions,
                (usable_gap(state.previous_location, location)->0).1,
                config,
                raw_distance,
                table,
                emissions.len(),
            )
        } else {
            Seq::empty()
        };
        if carries_over(state, location, emissions) {
            lemma_reached_positions(
                carried(state),
                emissions,
                (usable_gap(state.previous_location, location)->0).1,
                config,
                raw_distance,
                table,
                emissions.len(),
            );
            lemma_kept_is_among(state.candidates);
        }
        if continued.len() > 0 {
            lemma_normalized_positions(continued, emissions);
        } else {
            assert forall|i: int| 0 <= i < seeds(emissions).len() implies is_candidate(
                (#[trigger] seeds(emissions)[i]).route_position,
                emissions,
            ) by {
                assert(emissions[i].route_position == seeds(emissions)[i].route_position);
            }
            lemma_normalized_positions(seeds(emissions), emissions);
        }
    }
}

/// The longest plausible way is far below the moderate numbers' limit.
proof fn lemma_longest_path_is_bounded(interval: Span)
    ensures
        within(longest_path(interval), 1211),
{
    let least = Span::from_millis(MINIMUM_RELIABLE_INTERVAL);
    let reliable = if interval.nanos > least.nanos {
        interval
    } else {
        least
    };
    let whole = Binary64::from_integer((reliable.nanos as int / 1_000_000_000) as u128);
    let rest = Binary64::from_integer((reliable.nanos as int % 1_000_000_000) as u128);
    lemma_integer_is_bounded((reliable.nanos as int / 1_000_000_000) as u128);
    lemma_integer_is_bounded((reliable.nanos as int % 1_000_000_000) as u128);
    lemma_units_between_powers(BILLION_BITS);
    lemma_pow2_strictly_increases(PLACES as nat, 1103);
    law_quotient_is_bounded(rest, number(BILLION_BITS), PLACES as nat + 128, PLACES as nat);
    law_sum_is_bounded(whole, rest.over(number(BILLION_BITS)), PLACES as nat + 128);
    lemma_units_between_powers(MAXIMAL_POSSIBLE_SPEED_MPS);
    lemma_units_between_powers(TWO);
    law_product_is_bounded(number(MAXIMAL_POSSIBLE_SPEED_MPS), number(TWO), 1080, 1076);
    law_product_is_bounded(
        number(MAXIMAL_POSSIBLE_SPEED_MPS).times(number(TWO)),
        reliable.as_seconds(),
        1082,
        PLACES as nat + 129,
    );
}

/// -1.25 times two to the power 1023: no transition's likelihood is lower.
pub const LOWEST_TRANSITION: u64 = 0xffe4_0000_0000_0000;

/// -1.5 times two to the power 1023: nor is that of a transition over a carried candidate.
pub const LOWEST_CHAIN: u64 = 0xffe8_0000_0000_0000;

/// -1.75 times two to the power 1023: nor is a score.
pub const LOWEST_SCORE: u64 = 0xffec_0000_0000_0000;

/// -1.875 times two to the power 1023: nor is the difference of a score to the best.
pub const LOWEST_DIFFERENCE: u64 = 0xffee_0000_0000_0000;

/// Two to the power 1001: no transition's likelihood is higher.
pub const HIGHEST_TRANSITION: u64 = 0x7e80_0000_0000_0000;

/// Two to the power 1002: nor is that of a transition over a carried candidate.
pub const HIGHEST_CHAIN: u64 = 0x7e90_0000_0000_0000;

/// Two to the power 1003: nor is a score.
pub const HIGHEST_SCORE: u64 = 0x7ea0_0000_0000_0000;

/// Whether a number is finite and lies between two others.
spec fn lies_between(x: Binary64, low: u64, high: u64) -> bool {
    x.is_finite() && signed_units(number(low)) <= signed_units(x) <= signed_units(number(high))
}

/// The limits in units.
proof fn lemma_limits()
    ensures
        pow2(2097) == 4 * pow2(2095),
        pow2(2098) == 8 * pow2(2095),
        signed_units(number(LOWEST_TRANSITION)) == -5 * pow2(2095),
        signed_units(number(LOWEST_CHAIN)) == -6 * pow2(2095),
        signed_units(number(LOWEST_SCORE)) == -7 * pow2(2095),
        2 * signed_units(number(LOWEST_DIFFERENCE)) == -15 * pow2(2095),
        signed_units(number(HIGHEST_TRANSITION)) == pow2(2075),
        signed_units(number(HIGHEST_CHAIN)) == pow2(2076),
        signed_units(number(HIGHEST_SCORE)) == pow2(2077),
        pow2(2076) == 2 * pow2(2075),
        pow2(2077) == 4 * pow2(2075),
        pow2(2075) == 2 * pow2(2074),
        8 * pow2(2077) <= pow2(2095),
        pow2(1084) <= pow2(2074),
        pow2(1211) <= pow2(2043),
{
    lemma2_to64();
    lemma2_to64_rest();
    lemma_pow2_adds(2, 2095);
    lemma_pow2_adds(3, 2095);
    lemma_pow2_adds(50, 2045);
    lemma_pow2_adds(1, 2094);
    lemma_pow2_adds(49, 2045);
    lemma_mul_is_associative(5, pow2(50) as int, pow2(2045) as int);
    lemma_mul_is_associative(6, pow2(50) as int, pow2(2045) as int);
    lemma_mul_is_associative(7, pow2(50) as int, pow2(2045) as int);
    lemma_mul_is_associative(15, pow2(49) as int, pow2(2045) as int);
    lemma_pow2_adds(52, 2023);
    lemma_pow2_adds(52, 2024);
    lemma_pow2_adds(52, 2025);
    lemma_pow2_adds(1, 2074);
    lemma_pow2_adds(1, 2075);
    lemma_pow2_adds(2, 2075);
    lemma_pow2_adds(3, 2077);
    lemma_pow2_strictly_increases(2080, 2095);
    lemma_pow2_strictly_increases(1084, 2074);
    lemma_pow2_strictly_increases(1211, 2043);
}

/// The difference of two ways is finite, and its share of the likelihood not above zero.
proof fn lemma_difference_of_the_ways(raw_distance: Binary64, path: Binary64)
    requires
        raw_distance.is_finite(),
        path.is_finite(),
        number(ZERO).at_most(path),
        within(path, 1211),
    ensures
        ({
            let term = raw_distance.minus(path).absolute().negated().over(
                number(PATH_LENGTH_DIFFERENCE_MEAN_M),
            );
            term.is_finite() && -pow2(2097) <= signed_units(term) <= 0
        }),
{
    let largest = (INFINITE_MAGNITUDE - 1) as u64;
    let total = signed_units(raw_distance) - signed_units(path);
    let n = (if total < 0 {
        -total
    } else {
        total
    }) as nat;
    lemma_limits();
    assert(units(0) == 0) by {
        assert(0 * pow2(0) == 0);
    }
    lemma_negated_units(path);
    if raw_distance.magnitude() < largest {
        lemma_units_grow(raw_distance.magnitude(), largest);
    }
    let difference = raw_distance.minus(path);
    assert(difference.is_finite()) by {
        reveal(Binary64::spec_plus);
        lemma_nearest_to_the_largest(n);
    }
    let size = difference.absolute().negated();
    if size.magnitude() < largest {
        lemma_units_grow(size.magnitude(), largest);
    }
    lemma_units_between_powers(largest);
    lemma_units_between_powers(PATH_LENGTH_DIFFERENCE_MEAN_M);
    law_quotient_is_bounded(size, number(PATH_LENGTH_DIFFERENCE_MEAN_M), 2098, 1075);
    assert(size.over(number(PATH_LENGTH_DIFFERENCE_MEAN_M)).is_negative()) by {
        reveal(Binary64::spec_over);
    }
}

/// A logarithm is far below the limits.
proof fn lemma_logarithm_is_small(x: Binary64)
    requires
        is_logarithm(x),
    ensures
        within(x, 1084),
{
    lemma_units_between_powers(LARGEST_LOGARITHM);
    if x.magnitude() < LARGEST_LOGARITHM {
        lemma_units_grow(x.magnitude(), LARGEST_LOGARITHM);
    }
}

/// A transition's likelihood lies between its limits.
proof fn lemma_transition_is_bounded(
    previous: RoutePosition,
    current: RoutePosition,
    interval: Span,
    config: UzmatchConfig,
    raw_distance: Binary64,
    jump: Option<Binary64>,
)
    requires
        jump is Some ==> is_logarithm(jump->0),
    ensures
        transition(previous, current, interval, config, raw_distance, jump) is Some
            ==> lies_between(
            transition(previous, current, interval, config, raw_distance, jump)->0,
            LOWEST_TRANSITION,
            HIGHEST_TRANSITION,
        ),
{
    if transition(previous, current, interval, config, raw_distance, jump) is Some {
        let route_delta = current.distance_along_route_meters.minus(
            previous.distance_along_route_meters,
        );
        let path = route_delta.max(number(ZERO));
        let longest = longest_path(interval);
        lemma_longest_path_is_bounded(interval);
        assert(path.is_finite() && number(ZERO).at_most(path) && path.at_most(longest));
        assert(units(0) == 0) by {
            assert(0 * pow2(0) == 0);
        }
        if path.magnitude() < longest.magnitude() {
            lemma_units_grow(path.magnitude(), longest.magnitude());
        }
        lemma_limits();
        lemma_difference_of_the_ways(raw_distance, path);
        lemma_logarithm_is_small(jump->0);
        law_sum_is_between(
            raw_distance.minus(path).absolute().negated().over(
                number(PATH_LENGTH_DIFFERENCE_MEAN_M),
            ),
            jump->0,
            number(LOWEST_TRANSITION),
            number(HIGHEST_TRANSITION),
        );
    }
}

/// The best likelihood over carried candidates lies between its limits.
proof fn lemma_best_chained_is_bounded(
    previous: Seq<TemporalCandidate>,
    emission: SnapCandidate,
    interval: Span,
    config: UzmatchConfig,
    raw_distance: Binary64,
    jumps: Seq<Option<Binary64>>,
    n: nat,
)
    requires
        n <= previous.len(),
        n <= jumps.len(),
        candidates_within(previous, LARGE_POWER as nat + 1),
        moderate(emission.emission_log_likelihood),
        forall|p: int|
            0 <= p < jumps.len() ==> ((#[trigger] jumps[p]) is Some ==> is_logarithm(jumps[p]->0)),
    ensures
        best_chained(previous, emission, interval, config, raw_distance, jumps, n) is Some
            ==> lies_between(
            best_chained(previous, emission, interval, config, raw_distance, jumps, n)->0,
            LOWEST_SCORE,
            HIGHEST_SCORE,
        ),
    decreases n,
{
    if n > 0 {
        let m = (n - 1) as nat;
        lemma_best_chained_is_bounded(
            previous,
            emission,
            interval,
            config,
            raw_distance,
            jumps,
            m,
        );
        let last = previous[n - 1];
        lemma_transition_is_bounded(
            last.route_position,
            emission.route_position,
            interval,
            config,
            raw_distance,
            jumps[n - 1],
        );
        let step = transition(
            last.route_position,
            emission.route_position,
            interval,
            config,
            raw_distance,
            jumps[n - 1],
        );
        if step is Some {
            let so_far = last.accumulated_log_likelihood;
            lemma_limits();
            assert(within(so_far, LARGE_POWER as nat + 1));
            law_sum_is_between(so_far, step->0, number(LOWEST_CHAIN), number(HIGHEST_CHAIN));
            lemma_moderate_is_within(emission.emission_log_likelihood);
            law_sum_is_between(
                so_far.plus(step->0),
                emission.emission_log_likelihood,
                number(LOWEST_SCORE),
                number(HIGHEST_SCORE),
            );
        }
        assert(chained(
            last,
            emission,
            interval,
            config,
            raw_distance,
            jumps[n - 1],
        ) is Some == step is Some);
    }
}

/// Whether every likelihood of candidates lies between the limits of a score.
spec fn are_scored(candidates: Seq<TemporalCandidate>) -> bool {
    forall|i: int|
        0 <= i < candidates.len() ==> lies_between(
            (#[trigger] candidates[i]).accumulated_log_likelihood,
            LOWEST_SCORE,
            HIGHEST_SCORE,
        )
}

/// The likelihoods of what is reached lie between the limits of a score.
proof fn lemma_reached_is_scored(
    previous: Seq<TemporalCandidate>,
    emissions: Seq<SnapCandidate>,
    interval: Span,
    config: UzmatchConfig,
    raw_distance: Binary64,
    table: Seq<Seq<Option<Binary64>>>,
    n: nat,
)
    requires
        n <= emissions.len(),
        has_shape(table, emissions.len(), previous.len()),
        candidates_within(previous, LARGE_POWER as nat + 1),
        moderate_emissions(emissions),
        are_logarithms(table),
    ensures
        are_scored(reached(previous, emissions, interval, config, raw_distance, table, n)),
    decreases n,
{
    if n > 0 {
        let m = (n - 1) as nat;
        lemma_reached_is_scored(previous, emissions, interval, config, raw_distance, table, m);
        assert forall|p: int|
            0 <= p < table[n - 1].len() && (#[trigger] table[n - 1][p]) is Some implies is_logarithm(
            table[n - 1][p]->0,
        ) by {}
        assert(moderate(emissions[n - 1].emission_log_likelihood));
        lemma_best_chained_is_bounded(
            previous,
            emissions[n - 1],
            interval,
            config,
            raw_distance,
            table[n - 1],
            previous.len(),
        );
    }
}

/// Normalizing doubles the likelihoods at most.
proof fn lemma_normalized_within(candidates: Seq<TemporalCandidate>, k: nat)
    requires
        k < LARGEST_POWER,
        candidates_within(candidates, k),
    ensures
        candidates_within(normalized(candidates), k + 1),
{
    lemma_kept_is_among(candidates);
    let kept = bounded(stably_sorted(candidates, candidates.len()));
    let best = kept[0].accumulated_log_likelihood;
    assert forall|i: int| 0 <= i < kept.len() implies within(
        (#[trigger] kept[i]).accumulated_log_likelihood,
        k,
    ) by {
        let c = choose|c: int| 0 <= c < candidates.len() && candidates[c] == kept[i];
        assert(within(candidates[c].accumulated_log_likelihood, k));
    }
    assert forall|i: int| 0 <= i < normalized(candidates).len() implies within(
        (#[trigger] normalized(candidates)[i]).accumulated_log_likelihood,
        k + 1,
    ) by {
        assert(within(kept[i].accumulated_log_likelihood, k));
        assert(within(kept[0].accumulated_log_likelihood, k));
        law_sum_is_bounded(kept[i].accumulated_log_likelihood, best, k);
    }
}

/// Normalized candidates whose likelihoods lie between the limits of a score stand in
/// order.
proof fn lemma_normalized_stand_in_order(candidates: Seq<TemporalCandidate>)
    requires
        candidates.len() > 0,
        are_scored(candidates),
    ensures
        stand_in_order(normalized(candidates)),
{
    lemma_kept_is_among(candidates);
    let kept = bounded(stably_sorted(candidates, candidates.len()));
    let best = kept[0].accumulated_log_likelihood;
    lemma_limits();
    lemma_pow2_pos(2095);
    assert(units(0) == 0) by {
        assert(0 * pow2(0) == 0);
    }
    assert forall|i: int| 0 <= i < kept.len() implies lies_between(
        (#[trigger] kept[i]).accumulated_log_likelihood,
        LOWEST_SCORE,
        HIGHEST_SCORE,
    ) by {
        let c = choose|c: int| 0 <= c < candidates.len() && candidates[c] == kept[i];
        assert(lies_between(
            candidates[c].accumulated_log_likelihood,
            LOWEST_SCORE,
            HIGHEST_SCORE,
        ));
    }
    assert(lies_between(kept[0].accumulated_log_likelihood, LOWEST_SCORE, HIGHEST_SCORE));
    assert forall|i: int| 0 <= i < normalized(candidates).len() implies (
    #[trigger] normalized(candidates)[i]).accumulated_log_likelihood.is_finite() by {
        let score = kept[i].accumulated_log_likelihood;
        assert(lies_between(score, LOWEST_SCORE, HIGHEST_SCORE));
        if i > 0 {
            assert(!likelier(kept[i], kept[0]));
        }
        lemma_negated_units(best);
        lemma_signed_units_grow(score, best);
        law_sum_is_between(
            score,
            best.negated(),
            number(LOWEST_DIFFERENCE),
            number(ZERO),
        );
    }
    assert forall|i: int, j: int| 0 <= i < j < normalized(candidates).len() implies (
    #[trigger] normalized(candidates)[j]).accumulated_log_likelihood.at_most(
        (#[trigger] normalized(candidates)[i]).accumulated_log_likelihood,
    ) by {
        assert(!likelier(kept[j], kept[i]));
        law_difference_keeps_order(
            kept[j].accumulated_log_likelihood,
            kept[i].accumulated_log_likelihood,
            best,
        );
    }
    law_normalized_maximum_is_zero(candidates);
}

/// The kept candidates stand in descending order of their likelihoods, which are finite,
/// and the likeliest has the logarithm zero, whatever distance and jumps were measured.
pub proof fn law_kept_candidates_stand_in_order(
    state: Frontier,
    location: UserLocation,
    emissions: Seq<SnapCandidate>,
    config: UzmatchConfig,
    raw_distance: Binary64,
    table: Seq<Seq<Option<Binary64>>>,
)
    requires
        moderate_emissions(emissions),
        moderate_candidates(state.candidates),
        are_logarithms(table),
        carries_over(state, location, emissions) ==> has_shape(
            table,
            emissions.len(),
            carried(state).len(),
        ),
    ensures
        stand_in_order(
            updated(state, location, emissions, config, raw_distance, table).0.candidates,
        ),
{
    if emissions.len() > 0 {
        let k = LARGE_POWER as nat;
        let continued = if carries_over(state, location, emissions) {
            reached(
                carried(state),
                emissions,
                (usable_gap(state.previous_location, location)->0).1,
                config,
                raw_distance,
                table,
                emissions.len(),
            )
        } else {
            Seq::empty()
        };
        if carries_over(state, location, emissions) {
            assert forall|i: int| 0 <= i < state.candidates.len() implies within(
                (#[trigger] state.candidates[i]).accumulated_log_likelihood,
                k,
            ) by {
                lemma_moderate_is_within(state.candidates[i].accumulated_log_likelihood);
            }
            lemma_normalized_within(state.candidates, k);
            lemma_reached_is_scored(
                carried(state),
                emissions,
                (usable_gap(state.previous_location, location)->0).1,
                config,
                raw_distance,
                table,
                emissions.len(),
            );
        }
        let candidates = if continued.len() > 0 {
            continued
        } else {
            seeds(emissions)
        };
        if continued.len() == 0 {
            assert forall|i: int| 0 <= i < candidates.len() implies lies_between(
                (#[trigger] candidates[i]).accumulated_log_likelihood,
                LOWEST_SCORE,
                HIGHEST_SCORE,
            ) by {
                assert(moderate(emissions[i].emission_log_likelihood));
                lemma_moderate_is_within(emissions[i].emission_log_likelihood);
                lemma_limits();
            }
        }
        lemma_normalized_stand_in_order(candidates);
    }
}

} // verus!
