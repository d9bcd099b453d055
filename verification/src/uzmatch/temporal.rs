//! Carries the candidates of a fix over to the next one, so that the position on
//! the route is chosen by what led there and not by one fix alone.
//!
//! Distances on the globe, exponentials and logarithms are computed by the caller:
//! see `TransitionMeasures`.
use vstd::prelude::*;

use crate::binary64::{number, Binary64, ONE, TWO, ZERO};
use crate::models::{GeographicCoordinate, UserLocation};
use crate::time::Span;
use crate::uzmatch::snap::{RoutePosition, SnapCandidate, MAX_SNAP_CANDIDATES};
use crate::uzmatch::temporal_laws::{
    law_kept_candidates_stand_in_order, moderate_candidates, moderate_emissions, stand_in_order,
};
use crate::uzmatch::UzmatchConfig;

verus! {

/// 200 kilometres per hour in metres per second.
pub const MAXIMAL_POSSIBLE_SPEED_MPS: u64 = 0x404b_c71c_71c7_1c72;

/// Shorter intervals count as these milliseconds when the path is bounded.
pub const MINIMUM_RELIABLE_INTERVAL: u64 = 2_000;

/// 745.0: no logarithm of a positive number is larger, on either side of zero.
pub const LARGEST_LOGARITHM: u64 = 0x4087_4800_0000_0000;

/// After a gap of more than these milliseconds the candidates start anew.
pub const MAX_SIGNAL_GAP: u64 = 5_000;

/// 2.0: the mean difference, in metres, between the way along the route and the way
/// between two fixes.
pub const PATH_LENGTH_DIFFERENCE_MEAN_M: u64 = 0x4000_0000_0000_0000;

/// 1.0: the distance, in metres, that a jump of the offset is measured in.
pub const JUMP_NORMALIZATION_M: u64 = 0x3ff0_0000_0000_0000;

/// 0.000130031437976: the least likelihood of a jump.
pub const JUMP_MIN_LIKELIHOOD: u64 = 0x3f21_0b21_8c0f_e53a;

/// 9.0: from this speed on, in metres per second, a jump counts in full.
pub const JUMP_GOOD_SPEED_MPS: u64 = 0x4022_0000_0000_0000;

/// 6.5: up to this accuracy, in metres, a jump counts in full.
pub const JUMP_GOOD_ACCURACY_M: u64 = 0x401a_0000_0000_0000;

/// A candidate that is carried over from fix to fix.
#[derive(Clone, Copy, PartialEq, Eq, Structural, Debug)]
pub struct TemporalCandidate {
    /// The position.
    pub route_position: RoutePosition,
    /// The logarithm of how likely the fixes so far are for it, relative to the best.
    pub accumulated_log_likelihood: Binary64,
}

/// The candidates of the last accurate fix.
#[derive(Debug)]
pub struct TemporalMatchState {
    /// The candidates, the likeliest first.
    pub candidates: Vec<TemporalCandidate>,
    /// The fix.
    pub previous_location: Option<UserLocation>,
}

/// What a state holds.
pub struct Frontier {
    /// The candidates.
    pub candidates: Seq<TemporalCandidate>,
    /// The fix.
    pub previous_location: Option<UserLocation>,
}

impl View for TemporalMatchState {
    type V = Frontier;

    open spec fn view(&self) -> Frontier {
        Frontier { candidates: self.candidates@, previous_location: self.previous_location }
    }
}

/// A state without candidates.
pub open spec fn no_frontier() -> Frontier {
    Frontier { candidates: Seq::empty(), previous_location: None }
}

/// Whether a number can be the logarithm of a positive number.
pub open spec fn is_logarithm(x: Binary64) -> bool {
    x.is_finite() && x.absolute().at_most(number(LARGEST_LOGARITHM))
}

/// A measured logarithm; none where the number cannot be one.
pub open spec fn logarithm(jump: Option<Binary64>) -> Option<Binary64> {
    match jump {
        Some(x) if is_logarithm(x) => jump,
        _ => None,
    }
}

/// A table of measured logarithms, without the numbers that cannot be one.
pub open spec fn logarithms(jumps: Seq<Vec<Option<Binary64>>>) -> Seq<Seq<Option<Binary64>>> {
    Seq::new(
        jumps.len(),
        |e: int| Seq::new(jumps[e]@.len(), |p: int| logarithm(jumps[e]@[p])),
    )
}

/// Whether every number of a table can be the logarithm of a positive number.
pub open spec fn are_logarithms(table: Seq<Seq<Option<Binary64>>>) -> bool {
    forall|e: int, p: int|
        0 <= e < table.len() && 0 <= p < table[e].len() ==> ((#[trigger] table[e][p]) is Some
            ==> is_logarithm(table[e][p]->0))
}

/// What the caller measures between two fixes.
#[derive(Debug)]
pub struct TransitionMeasures {
    /// The distance between the fixes in metres.
    raw_distance: Binary64,
    /// For each new candidate and each carried one, the logarithm of the likelihood
    /// of the jump between their offsets, where there is one.
    jumps: Vec<Vec<Option<Binary64>>>,
}

impl TransitionMeasures {
    /// Every measured jump is a logarithm.
    #[verifier::type_invariant]
    spec fn has_logarithms(&self) -> bool {
        are_logarithms(self.table())
    }

    /// The distance between the fixes in metres.
    pub closed spec fn raw_distance(&self) -> Binary64 {
        self.raw_distance
    }

    /// The jumps as a table.
    pub closed spec fn table(&self) -> Seq<Seq<Option<Binary64>>> {
        Seq::new(self.jumps@.len(), |e: int| self.jumps@[e]@)
    }

    /// The measures of a distance in metres and, for each new candidate and each carried
    /// one, of the logarithm of the likelihood of the jump between their offsets. What
    /// cannot be a logarithm counts as not measured.
    pub fn new(raw_distance: Binary64, jumps: Vec<Vec<Option<Binary64>>>) -> (r: Self)
        ensures
            r.raw_distance() == raw_distance,
            r.table() == logarithms(jumps@),
    {
        let mut kept: Vec<Vec<Option<Binary64>>> = Vec::new();
        let mut e: usize = 0;
        while e < jumps.len()
            invariant
                e <= jumps.len(),
                kept@.len() == e,
                forall|i: int|
                    0 <= i < e ==> (#[trigger] kept@[i])@ == logarithms(jumps@)[i],
            decreases jumps.len() - e,
        {
            let mut row: Vec<Option<Binary64>> = Vec::new();
            let mut p: usize = 0;
            while p < jumps[e].len()
                invariant
                    e < jumps.len(),
                    p <= jumps@[e as int]@.len(),
                    row@.len() == p,
                    forall|i: int|
                        0 <= i < p ==> (#[trigger] row@[i]) == logarithm(jumps@[e as int]@[i]),
                decreases jumps@[e as int]@.len() - p,
            {
                let jump: Option<Binary64> = jumps[e][p];
                row.push(
                    match jump {
                        Some(x) => if x.is_finite() && x.absolute().at_most(
                            number(LARGEST_LOGARITHM),
                        ) {
                            Some(x)
                        } else {
                            None
                        },
                        None => None,
                    },
                );
                p = p + 1;
            }
            assert(row@ =~= logarithms(jumps@)[e as int]);
            kept.push(row);
            e = e + 1;
        }
        proof {
            let table = Seq::new(kept@.len(), |i: int| kept@[i]@);
            assert(table =~= logarithms(jumps@));
            assert(are_logarithms(table));
        }
        TransitionMeasures { raw_distance, jumps: kept }
    }
}

/// Whether a table has a row for each new candidate and in it a column for each
/// carried one.
pub open spec fn has_shape(table: Seq<Seq<Option<Binary64>>>, rows: nat, columns: nat) -> bool {
    table.len() == rows && forall|e: int| 0 <= e < rows ==> (#[trigger] table[e]).len() == columns
}

/// Whether one candidate comes before another: the likelier first, then in route
/// order.
pub open spec fn likelier(left: TemporalCandidate, right: TemporalCandidate) -> bool {
    let mine = left.accumulated_log_likelihood.total_rank();
    let theirs = right.accumulated_log_likelihood.total_rank();
    mine > theirs || (mine == theirs && left.route_position.segment_index
        < right.route_position.segment_index)
}

/// The number of sorted candidates in front of a new one: all up to the first that
/// the new one comes before.
pub open spec fn sorting_index(
    sorted: Seq<TemporalCandidate>,
    new: TemporalCandidate,
    from: nat,
) -> nat
    decreases sorted.len() - from,
{
    if from < sorted.len() && !likelier(new, sorted[from as int]) {
        sorting_index(sorted, new, from + 1)
    } else {
        from
    }
}

/// The first `n` candidates sorted; equal ones stay in their order.
pub open spec fn stably_sorted(
    candidates: Seq<TemporalCandidate>,
    n: nat,
) -> Seq<TemporalCandidate>
    decreases n,
{
    if n == 0 {
        Seq::empty()
    } else {
        let sorted = stably_sorted(candidates, (n - 1) as nat);
        let new = candidates[n - 1];
        sorted.insert(sorting_index(sorted, new, 0) as int, new)
    }
}

/// The candidates without those too many at the back.
pub open spec fn bounded(candidates: Seq<TemporalCandidate>) -> Seq<TemporalCandidate> {
    if candidates.len() > MAX_SNAP_CANDIDATES {
        candidates.subrange(0, MAX_SNAP_CANDIDATES as int)
    } else {
        candidates
    }
}

/// A candidate with its likelihood relative to the best.
pub open spec fn relative_to(
    candidate: TemporalCandidate,
    best: Binary64,
) -> TemporalCandidate {
    TemporalCandidate {
        route_position: candidate.route_position,
        accumulated_log_likelihood: candidate.accumulated_log_likelihood.minus(best),
    }
}

/// The likeliest candidates, with likelihoods relative to the best.
pub open spec fn normalized(candidates: Seq<TemporalCandidate>) -> Seq<TemporalCandidate> {
    let kept = bounded(stably_sorted(candidates, candidates.len()));
    Seq::new(kept.len(), |i: int| relative_to(kept[i], kept[0].accumulated_log_likelihood))
}

/// The candidates that a first fix gives.
pub open spec fn seeds(emissions: Seq<SnapCandidate>) -> Seq<TemporalCandidate> {
    Seq::new(
        emissions.len(),
        |i: int|
            TemporalCandidate {
                route_position: emissions[i].route_position,
                accumulated_log_likelihood: emissions[i].emission_log_likelihood,
            },
    )
}

/// The interval since the last fix, where candidates can be carried over it: more
/// than nothing and at most the longest gap.
pub open spec fn usable_gap(
    previous: Option<UserLocation>,
    location: UserLocation,
) -> Option<(UserLocation, Span)> {
    match previous {
        Some(fix) => match location.timestamp.since(fix.timestamp) {
            Some(gap) => if 0 < gap.nanos <= Span::from_millis(MAX_SIGNAL_GAP).nanos {
                Some((fix, gap))
            } else {
                None
            },
            None => None,
        },
        None => None,
    }
}

/// The candidates that are carried over to a fix; none of a state with too many.
pub open spec fn carried(state: Frontier) -> Seq<TemporalCandidate> {
    if state.candidates.len() <= MAX_SNAP_CANDIDATES {
        normalized(state.candidates)
    } else {
        Seq::empty()
    }
}

/// Whether candidates are carried over to a fix, so that transitions are measured.
pub open spec fn carries_over(
    state: Frontier,
    location: UserLocation,
    emissions: Seq<SnapCandidate>,
) -> bool {
    emissions.len() > 0 && usable_gap(state.previous_location, location) is Some
        && carried(state).len() > 0
}

/// The longest plausible way in an interval, in metres.
pub open spec fn longest_path(interval: Span) -> Binary64 {
    let least = Span::from_millis(MINIMUM_RELIABLE_INTERVAL);
    let reliable = if interval.nanos > least.nanos {
        interval
    } else {
        least
    };
    number(MAXIMAL_POSSIBLE_SPEED_MPS).times(number(TWO)).times(reliable.as_seconds())
}

/// The logarithm of how likely the way from one position to another is; none where
/// it leads back farther than a fix can be off, is longer than plausible, or cannot
/// be measured.
pub open spec fn transition(
    previous: RoutePosition,
    current: RoutePosition,
    interval: Span,
    config: UzmatchConfig,
    raw_distance: Binary64,
    jump: Option<Binary64>,
) -> Option<Binary64> {
    let route_delta = current.distance_along_route_meters.minus(
        previous.distance_along_route_meters,
    );
    let path = route_delta.max(number(ZERO));
    if !route_delta.is_finite() || route_delta.less(config.snap_position_stddev_m.negated()) {
        None
    } else if longest_path(interval).less(path) || !raw_distance.is_finite() {
        None
    } else {
        match jump {
            Some(log_likelihood) => Some(
                raw_distance.minus(path).absolute().negated().over(
                    number(PATH_LENGTH_DIFFERENCE_MEAN_M),
                ).plus(log_likelihood),
            ),
            None => None,
        }
    }
}

/// The likelihood of a new candidate over a carried one.
pub open spec fn chained(
    previous: TemporalCandidate,
    emission: SnapCandidate,
    interval: Span,
    config: UzmatchConfig,
    raw_distance: Binary64,
    jump: Option<Binary64>,
) -> Option<Binary64> {
    match transition(
        previous.route_position,
        emission.route_position,
        interval,
        config,
        raw_distance,
        jump,
    ) {
        Some(log_likelihood) => Some(
            previous.accumulated_log_likelihood.plus(log_likelihood).plus(
                emission.emission_log_likelihood,
            ),
        ),
        None => None,
    }
}

/// The best likelihood of a new candidate over the first `n` carried ones.
pub open spec fn best_chained(
    previous: Seq<TemporalCandidate>,
    emission: SnapCandidate,
    interval: Span,
    config: UzmatchConfig,
    raw_distance: Binary64,
    jumps: Seq<Option<Binary64>>,
    n: nat,
) -> Option<Binary64>
    decreases n,
{
    if n == 0 {
        None
    } else {
        let best = best_chained(
            previous,
            emission,
            interval,
            config,
            raw_distance,
            jumps,
            (n - 1) as nat,
        );
        match chained(previous[n - 1], emission, interval, config, raw_distance, jumps[n - 1]) {
            Some(score) => match best {
                Some(known) if score.total_rank() < known.total_rank() => Some(known),
                _ => Some(score),
            },
            None => best,
        }
    }
}

/// The new candidates that can be reached from a carried one, among the first `n`.
pub open spec fn reached(
    previous: Seq<TemporalCandidate>,
    emissions: Seq<SnapCandidate>,
    interval: Span,
    config: UzmatchConfig,
    raw_distance: Binary64,
    table: Seq<Seq<Option<Binary64>>>,
    n: nat,
) -> Seq<TemporalCandidate>
    decreases n,
{
    if n == 0 {
        Seq::empty()
    } else {
        let before = reached(
            previous,
            emissions,
            interval,
            config,
            raw_distance,
            table,
            (n - 1) as nat,
        );
        match best_chained(
            previous,
            emissions[n - 1],
            interval,
            config,
            raw_distance,
            table[n - 1],
            previous.len(),
        ) {
            Some(score) => before.push(
                TemporalCandidate {
                    route_position: emissions[n - 1].route_position,
                    accumulated_log_likelihood: score,
                },
            ),
            None => before,
        }
    }
}

/// The candidates after a fix, and whether they continue those before it.
pub open spec fn updated(
    state: Frontier,
    location: UserLocation,
    emissions: Seq<SnapCandidate>,
    config: UzmatchConfig,
    raw_distance: Binary64,
    table: Seq<Seq<Option<Binary64>>>,
) -> (Frontier, bool) {
    if emissions.len() == 0 {
        (no_frontier(), false)
    } else {
        let continued = if carries_over(state, location, emissions) {
            reached(
                carried(state),
                emissions,
                (usable_gap(state.previous_location, location)->0).1,
                config,
                raw_distance,
                table,
                emissions.len(),
            )
        } else {
            Seq::empty()
        };
        let candidates = if continued.len() > 0 {
            continued
        } else {
            seeds(emissions)
        };
        (
            Frontier { candidates: normalized(candidates), previous_location: Some(location) },
            continued.len() > 0,
        )
    }
}

/// The best of the first `n` candidates: the likeliest, among those the first on the
/// route, and among those the last in the list.
pub open spec fn best_candidate(candidates: Seq<TemporalCandidate>, n: nat) -> TemporalCandidate
    decreases n,
{
    if n <= 1 {
        candidates[0]
    } else {
        let best = best_candidate(candidates, (n - 1) as nat);
        if likelier(best, candidates[n - 1]) {
            best
        } else {
            candidates[n - 1]
        }
    }
}

/// The position that the candidates for a fix are sought around.
pub open spec fn anchor(state: Frontier, location: UserLocation) -> Option<RoutePosition> {
    if state.candidates.len() > MAX_SNAP_CANDIDATES || usable_gap(
        state.previous_location,
        location,
    ) is None || state.candidates.len() == 0 {
        None
    } else {
        Some(best_candidate(state.candidates, state.candidates.len()).route_position)
    }
}

/// Where the change of offset between two candidates leads from the first fix; the
/// caller measures how far that is.
pub open spec fn offset_endpoint(
    previous: RoutePosition,
    current: RoutePosition,
    previous_location: UserLocation,
    location: UserLocation,
) -> GeographicCoordinate {
    let from = previous_location.coordinates;
    let to = location.coordinates;
    GeographicCoordinate {
        lat: from.lat.plus(previous.coordinates.lat.minus(from.lat)).minus(
            current.coordinates.lat.minus(to.lat),
        ),
        lng: from.lng.plus(previous.coordinates.lng.minus(from.lng)).minus(
            current.coordinates.lng.minus(to.lng),
        ),
    }
}

/// What the likelihood of a jump is computed from: `e` to the exponent, and that to
/// the power where there is one.
#[derive(Clone, Copy, PartialEq, Eq, Structural, Debug)]
pub struct JumpTerms {
    /// The exponent of `e`.
    pub exponent: Binary64,
    /// The power that the result is raised to at low speed.
    pub power: Option<Binary64>,
}

/// The mean speed of two fixes; zero where either has none.
pub open spec fn mean_speed(previous: UserLocation, location: UserLocation) -> Binary64 {
    if previous.speed is Some && location.speed is Some {
        previous.speed->0.value.plus(location.speed->0.value).absolute().over(number(TWO))
    } else {
        number(ZERO)
    }
}

/// Whether everything that a jump is judged by is finite.
pub open spec fn jump_is_measurable(
    offset_change_m: Binary64,
    previous: UserLocation,
    location: UserLocation,
) -> bool {
    &&& offset_change_m.is_finite()
    &&& previous.speed is Some ==> previous.speed->0.value.is_finite()
    &&& location.speed is Some ==> location.speed->0.value.is_finite()
    &&& previous.horizontal_accuracy.is_finite()
    &&& location.horizontal_accuracy.is_finite()
    &&& mean_speed(previous, location).is_finite()
}

/// The distance that a jump is measured in: longer where the fixes are less
/// accurate.
pub open spec fn jump_normalization(previous: UserLocation, location: UserLocation) -> Binary64 {
    let accuracy = previous.horizontal_accuracy.max(location.horizontal_accuracy);
    if number(JUMP_GOOD_ACCURACY_M).less(accuracy) {
        number(JUMP_NORMALIZATION_M).times(accuracy).over(number(JUMP_GOOD_ACCURACY_M))
    } else {
        number(JUMP_NORMALIZATION_M)
    }
}

/// What the likelihood of a jump is computed from, given how far the offset changed.
pub open spec fn jump_terms_of(
    offset_change_m: Binary64,
    previous: UserLocation,
    location: UserLocation,
) -> Option<JumpTerms> {
    if jump_is_measurable(offset_change_m, previous, location) {
        let speed = mean_speed(previous, location);
        Some(
            JumpTerms {
                exponent: offset_change_m.negated().over(jump_normalization(previous, location)),
                power: if speed.less(number(JUMP_GOOD_SPEED_MPS)) {
                    Some(speed.over(number(JUMP_GOOD_SPEED_MPS)))
                } else {
                    None
                },
            },
        )
    } else {
        None
    }
}

/// The likelihood of a jump, held above the least; its logarithm is what counts.
pub open spec fn raised_likelihood(corrected: Binary64) -> Option<Binary64> {
    let likelihood = number(ONE).minus(number(JUMP_MIN_LIKELIHOOD)).times(corrected).plus(
        number(JUMP_MIN_LIKELIHOOD),
    );
    if likelihood.is_finite() {
        Some(likelihood)
    } else {
        None
    }
}

/// Where the change of offset between two candidates leads from the first fix.
pub fn jump_offset_endpoint(
    previous: &RoutePosition,
    current: &RoutePosition,
    previous_location: &UserLocation,
    location: &UserLocation,
) -> (r: GeographicCoordinate)
    ensures
        r == offset_endpoint(*previous, *current, *previous_location, *location),
{
    let from: GeographicCoordinate = previous_location.coordinates;
    let to: GeographicCoordinate = location.coordinates;
    GeographicCoordinate {
        lat: from.lat.plus(previous.coordinates.lat.minus(from.lat)).minus(
            current.coordinates.lat.minus(to.lat),
        ),
        lng: from.lng.plus(previous.coordinates.lng.minus(from.lng)).minus(
            current.coordinates.lng.minus(to.lng),
        ),
    }
}

/// What the likelihood of a jump is computed from, given how far the offset changed;
/// nothing where a measurement is not finite.
pub fn jump_terms(
    offset_change_m: Binary64,
    previous_location: &UserLocation,
    location: &UserLocation,
) -> (r: Option<JumpTerms>)
    ensures
        r == jump_terms_of(offset_change_m, *previous_location, *location),
{
    if !offset_change_m.is_finite() {
        return None;
    }
    if let Some(speed) = previous_location.speed {
        if !speed.value.is_finite() {
            return None;
        }
    }
    if let Some(speed) = location.speed {
        if !speed.value.is_finite() {
            return None;
        }
    }
    let mut speed: Binary64 = number(ZERO);
    if let Some(before) = previous_location.speed {
        if let Some(now) = location.speed {
            speed = before.value.plus(now.value).absolute().over(number(TWO));
        }
    }
    if !previous_location.horizontal_accuracy.is_finite()
        || !location.horizontal_accuracy.is_finite() || !speed.is_finite() {
        return None;
    }
    let accuracy: Binary64 = previous_location.horizontal_accuracy.max(
        location.horizontal_accuracy,
    );
    let normalization: Binary64 = if number(JUMP_GOOD_ACCURACY_M).less(accuracy) {
        number(JUMP_NORMALIZATION_M).times(accuracy).over(number(JUMP_GOOD_ACCURACY_M))
    } else {
        number(JUMP_NORMALIZATION_M)
    };
    let power: Option<Binary64> = if speed.less(number(JUMP_GOOD_SPEED_MPS)) {
        Some(speed.over(number(JUMP_GOOD_SPEED_MPS)))
    } else {
        None
    };
    Some(JumpTerms { exponent: offset_change_m.negated().over(normalization), power })
}

/// The likelihood of a jump, held above the least; nothing where it is not finite.
pub fn jump_likelihood(corrected: Binary64) -> (r: Option<Binary64>)
    ensures
        r == raised_likelihood(corrected),
{
    let likelihood: Binary64 = number(ONE).minus(number(JUMP_MIN_LIKELIHOOD)).times(
        corrected,
    ).plus(number(JUMP_MIN_LIKELIHOOD));
    if likelihood.is_finite() {
        Some(likelihood)
    } else {
        None
    }
}

fn comes_before(left: TemporalCandidate, right: TemporalCandidate) -> (r: bool)
    ensures
        r == likelier(left, right),
{
    let mine: Binary64 = left.accumulated_log_likelihood;
    let theirs: Binary64 = right.accumulated_log_likelihood;
    theirs.totally_before(mine) || (!mine.totally_before(theirs)
        && left.route_position.segment_index < right.route_position.segment_index)
}

fn normalize_and_sort(candidates: &Vec<TemporalCandidate>) -> (r: Vec<TemporalCandidate>)
    ensures
        r@ == normalized(candidates@),
{
    let mut sorted: Vec<TemporalCandidate> = Vec::new();
    let mut i: usize = 0;
    while i < candidates.len()
        invariant
            i <= candidates.len(),
            sorted@ == stably_sorted(candidates@, i as nat),
        decreases candidates.len() - i,
    {
        let new: TemporalCandidate = candidates[i];
        let mut index: usize = 0;
        while index < sorted.len() && !comes_before(new, sorted[index])
            invariant
                index <= sorted.len(),
                sorting_index(sorted@, new, 0) == sorting_index(sorted@, new, index as nat),
            decreases sorted.len() - index,
        {
            index = index + 1;
        }
        sorted.insert(index, new);
        i = i + 1;
    }
    if sorted.len() > MAX_SNAP_CANDIDATES {
        sorted.truncate(MAX_SNAP_CANDIDATES);
    }
    let mut relative: Vec<TemporalCandidate> = Vec::new();
    let mut k: usize = 0;
    let ghost kept = bounded(stably_sorted(candidates@, candidates@.len()));
    assert(sorted@ =~= kept);
    while k < sorted.len()
        invariant
            k <= sorted.len(),
            sorted@ == kept,
            relative.len() == k,
            forall|j: int|
                0 <= j < k ==> relative[j] == relative_to(
                    kept[j],
                    kept[0].accumulated_log_likelihood,
                ),
        decreases sorted.len() - k,
    {
        let candidate: TemporalCandidate = sorted[k];
        let best: Binary64 = sorted[0].accumulated_log_likelihood;
        relative.push(
            TemporalCandidate {
                route_position: candidate.route_position,
                accumulated_log_likelihood: candidate.accumulated_log_likelihood.minus(best),
            },
        );
        k = k + 1;
    }
    assert(relative@ =~= normalized(candidates@));
    relative
}

fn seed_frontier(emissions: &Vec<SnapCandidate>) -> (r: Vec<TemporalCandidate>)
    ensures
        r@ == normalized(seeds(emissions@)),
{
    let mut candidates: Vec<TemporalCandidate> = Vec::new();
    let mut i: usize = 0;
    while i < emissions.len()
        invariant
            i <= emissions.len(),
            candidates.len() == i,
            forall|k: int| 0 <= k < i ==> candidates[k] == seeds(emissions@)[k],
        decreases emissions.len() - i,
    {
        candidates.push(
            TemporalCandidate {
                route_position: emissions[i].route_position,
                accumulated_log_likelihood: emissions[i].emission_log_likelihood,
            },
        );
        i = i + 1;
    }
    assert(candidates@ =~= seeds(emissions@));
    normalize_and_sort(&candidates)
}

fn transition_log_likelihood(
    previous: &RoutePosition,
    current: &RoutePosition,
    interval: Span,
    config: &UzmatchConfig,
    raw_distance: Binary64,
    jump: Option<Binary64>,
) -> (r: Option<Binary64>)
    ensures
        r == transition(*previous, *current, interval, *config, raw_distance, jump),
{
    let route_delta: Binary64 = current.distance_along_route_meters.minus(
        previous.distance_along_route_meters,
    );
    if !route_delta.is_finite() || route_delta.less(config.snap_position_stddev_m.negated()) {
        return None;
    }
    let path: Binary64 = route_delta.max(number(ZERO));
    let least: Span = Span::from_millis(MINIMUM_RELIABLE_INTERVAL);
    let reliable: Span = if interval.nanos > least.nanos {
        interval
    } else {
        least
    };
    let longest: Binary64 = number(MAXIMAL_POSSIBLE_SPEED_MPS).times(number(TWO)).times(
        reliable.as_seconds(),
    );
    if longest.less(path) || !raw_distance.is_finite() {
        return None;
    }
    match jump {
        Some(log_likelihood) => Some(
            raw_distance.minus(path).absolute().negated().over(
                number(PATH_LENGTH_DIFFERENCE_MEAN_M),
            ).plus(log_likelihood),
        ),
        None => None,
    }
}

fn transition_frontier(
    previous: &Vec<TemporalCandidate>,
    interval: Span,
    emissions: &Vec<SnapCandidate>,
    config: &UzmatchConfig,
    measures: &TransitionMeasures,
) -> (r: Vec<TemporalCandidate>)
    requires
        has_shape(measures.table(), emissions@.len(), previous@.len()),
    ensures
        r@ == reached(
            previous@,
            emissions@,
            interval,
            *config,
            measures.raw_distance(),
            measures.table(),
            emissions@.len(),
        ),
{
    let mut next: Vec<TemporalCandidate> = Vec::new();
    let mut e: usize = 0;
    while e < emissions.len()
        invariant
            e <= emissions.len(),
            has_shape(measures.table(), emissions@.len(), previous@.len()),
            next@ == reached(
                previous@,
                emissions@,
                interval,
                *config,
                measures.raw_distance(),
                measures.table(),
                e as nat,
            ),
        decreases emissions.len() - e,
    {
        let emission: SnapCandidate = emissions[e];
        let ghost row = measures.table()[e as int];
        let mut best: Option<Binary64> = None;
        let mut p: usize = 0;
        while p < previous.len()
            invariant
                p <= previous.len(),
                e < emissions.len(),
                emission == emissions@[e as int],
                has_shape(measures.table(), emissions@.len(), previous@.len()),
                row == measures.table()[e as int],
                row == measures.jumps@[e as int]@,
                row.len() == previous@.len(),
                best == best_chained(
                    previous@,
                    emission,
                    interval,
                    *config,
                    measures.raw_distance(),
                    row,
                    p as nat,
                ),
            decreases previous.len() - p,
        {
            let candidate: TemporalCandidate = previous[p];
            let jump: Option<Binary64> = measures.jumps[e][p];
            if let Some(log_likelihood) = transition_log_likelihood(
                &candidate.route_position,
                &emission.route_position,
                interval,
                config,
                measures.raw_distance,
                jump,
            ) {
                let score: Binary64 = candidate.accumulated_log_likelihood.plus(
                    log_likelihood,
                ).plus(emission.emission_log_likelihood);
                best = match best {
                    Some(known) => if score.totally_before(known) {
                        Some(known)
                    } else {
                        Some(score)
                    },
                    None => Some(score),
                };
            }
            p = p + 1;
        }
        if let Some(score) = best {
            next.push(
                TemporalCandidate {
                    route_position: emission.route_position,
                    accumulated_log_likelihood: score,
                },
            );
        }
        e = e + 1;
    }
    next
}

impl TemporalMatchState {
    /// The position that the candidates for a fix are sought around.
    pub fn candidate_anchor(&self, location: &UserLocation) -> (r: Option<RoutePosition>)
        ensures
            r == anchor(self@, *location),
    {
        if self.candidates.len() > MAX_SNAP_CANDIDATES || self.usable_interval(location).is_none()
            || self.candidates.len() == 0 {
            return None;
        }
        let mut best: TemporalCandidate = self.candidates[0];
        let mut i: usize = 1;
        while i < self.candidates.len()
            invariant
                1 <= i <= self.candidates.len(),
                best == best_candidate(self.candidates@, i as nat),
            decreases self.candidates.len() - i,
        {
            if !comes_before(best, self.candidates[i]) {
                best = self.candidates[i];
            }
            i = i + 1;
        }
        Some(best.route_position)
    }

    /// The candidates that are carried over to a fix, in the order in which the
    /// columns of the measured jumps stand.
    pub fn carried_candidates(&self) -> (r: Vec<TemporalCandidate>)
        ensures
            r@ == carried(self@),
    {
        if self.candidates.len() <= MAX_SNAP_CANDIDATES {
            normalize_and_sort(&self.candidates)
        } else {
            Vec::new()
        }
    }

    /// Whether transitions to the candidates of a fix are to be measured.
    pub fn needs_transitions(&self, location: &UserLocation, emissions: &Vec<SnapCandidate>) -> (r:
        bool)
        ensures
            r == carries_over(self@, *location, emissions@),
    {
        emissions.len() > 0 && self.usable_interval(location).is_some()
            && self.carried_candidates().len() > 0
    }

    /// The state after a fix.
    pub fn update(
        &self,
        location: &UserLocation,
        emissions: &Vec<SnapCandidate>,
        config: &UzmatchConfig,
        measures: &TransitionMeasures,
    ) -> (r: Self)
        requires
            carries_over(self@, *location, emissions@) ==> has_shape(
                measures.table(),
                emissions@.len(),
                carried(self@).len(),
            ),
        ensures
            r@ == updated(
                self@,
                *location,
                emissions@,
                *config,
                measures.raw_distance(),
                measures.table(),
            ).0,
            moderate_emissions(emissions@) && moderate_candidates(self.candidates@)
                ==> stand_in_order(r.candidates@),
    {
        self.update_with_status(location, emissions, config, measures).0
    }

    /// The state after a fix, and whether its candidates continue those before it.
    pub fn update_with_status(
        &self,
        location: &UserLocation,
        emissions: &Vec<SnapCandidate>,
        config: &UzmatchConfig,
        measures: &TransitionMeasures,
    ) -> (r: (Self, bool))
        requires
            carries_over(self@, *location, emissions@) ==> has_shape(
                measures.table(),
                emissions@.len(),
                carried(self@).len(),
            ),
        ensures
            (r.0@, r.1) == updated(
                self@,
                *location,
                emissions@,
                *config,
                measures.raw_distance(),
                measures.table(),
            ),
            moderate_emissions(emissions@) && moderate_candidates(self.candidates@)
                ==> stand_in_order(r.0.candidates@),
    {
        proof {
            use_type_invariant(measures);
            if moderate_emissions(emissions@) && moderate_candidates(self.candidates@) {
                law_kept_candidates_stand_in_order(
                    self@,
                    *location,
                    emissions@,
                    *config,
                    measures.raw_distance(),
                    measures.table(),
                );
            }
        }
        if emissions.len() == 0 {
            return (TemporalMatchState::default(), false);
        }
        let previous: Vec<TemporalCandidate> = self.carried_candidates();
        let usable: Option<(UserLocation, Span)> = self.usable_interval(location);
        if previous.len() > 0 {
            if let Some((_, interval)) = usable {
                let transitioned: Vec<TemporalCandidate> = transition_frontier(
                    &previous,
                    interval,
                    emissions,
                    config,
                    measures,
                );
                if transitioned.len() > 0 {
                    return (
                        TemporalMatchState {
                            candidates: normalize_and_sort(&transitioned),
                            previous_location: Some(*location),
                        },
                        true,
                    );
                }
            }
        }
        (
            TemporalMatchState {
                candidates: seed_frontier(emissions),
                previous_location: Some(*location),
            },
            false,
        )
    }

    /// The position of the likeliest candidate.
    pub fn route_position(&self) -> (r: Option<RoutePosition>)
        ensures
            r == leading_position(self@),
    {
        if self.candidates.len() > 0 {
            Some(self.candidates[0].route_position)
        } else {
            None
        }
    }

    fn usable_interval(&self, location: &UserLocation) -> (r: Option<(UserLocation, Span)>)
        ensures
            r == usable_gap(self.previous_location, *location),
    {
        match self.previous_location {
            Some(fix) => match location.timestamp.since(fix.timestamp) {
                Some(gap) => if gap.nanos > 0 && gap.nanos <= Span::from_millis(
                    MAX_SIGNAL_GAP,
                ).nanos {
                    Some((fix, gap))
                } else {
                    None
                },
                None => None,
            },
            None => None,
        }
    }
}

/// The position of the first candidate.
pub open spec fn leading_position(state: Frontier) -> Option<RoutePosition> {
    if state.candidates.len() > 0 {
        Some(state.candidates[0].route_position)
    } else {
        None
    }
}

impl Default for TemporalMatchState {
    /// No candidates.
    fn default() -> (r: Self)
        ensures
            r@ == no_frontier(),
    {
        TemporalMatchState { candidates: Vec::new(), previous_location: None }
    }
}

/// Whether candidates stand in order: none comes before an earlier one.
pub open spec fn in_order(candidates: Seq<TemporalCandidate>) -> bool {
    forall|i: int, j: int|
        0 <= i < j < candidates.len() ==> !likelier(
            #[trigger] candidates[j],
            #[trigger] candidates[i],
        )
}

proof fn lemma_sorting_index(sorted: Seq<TemporalCandidate>, new: TemporalCandidate, from: nat)
    requires
        from <= sorted.len(),
        forall|i: int| 0 <= i < from ==> !likelier(new, #[trigger] sorted[i]),
    ensures
        ({
            let index = sorting_index(sorted, new, from);
            &&& index <= sorted.len()
            &&& forall|i: int| 0 <= i < index ==> !likelier(new, #[trigger] sorted[i])
            &&& index < sorted.len() ==> likelier(new, sorted[index as int])
        }),
    decreases sorted.len() - from,
{
    if from < sorted.len() && !likelier(new, sorted[from as int]) {
        lemma_sorting_index(sorted, new, from + 1);
    }
}

/// Sorting puts the candidates in order and neither adds nor drops one.
pub proof fn law_sorting(candidates: Seq<TemporalCandidate>, n: nat)
    requires
        n <= candidates.len(),
    ensures
        stably_sorted(candidates, n).len() == n,
        in_order(stably_sorted(candidates, n)),
        stably_sorted(candidates, n).to_multiset() == candidates.subrange(
            0,
            n as int,
        ).to_multiset(),
    decreases n,
{
    broadcast use vstd::seq_lib::group_to_multiset_ensures;

    if n == 0 {
        assert(candidates.subrange(0, 0) =~= Seq::empty());
    } else {
        let m = (n - 1) as nat;
        law_sorting(candidates, m);
        let sorted = stably_sorted(candidates, m);
        let new = candidates[n - 1];
        lemma_sorting_index(sorted, new, 0);
        let index = sorting_index(sorted, new, 0) as int;
        let after = sorted.insert(index, new);
        assert forall|i: int, j: int| 0 <= i < j < after.len() implies !likelier(
            #[trigger] after[j],
            #[trigger] after[i],
        ) by {
            let old_i = if i > index {
                i - 1
            } else {
                i
            };
            let old_j = if j > index {
                j - 1
            } else {
                j
            };
            if i == index {
                assert(likelier(new, sorted[index]));
                assert(old_j == index || !likelier(sorted[old_j], sorted[index]));
            } else if j == index {
                assert(!likelier(new, sorted[i]));
            } else {
                assert(after[i] == sorted[old_i] && after[j] == sorted[old_j]);
            }
        }
        assert(candidates.subrange(0, n as int) =~= candidates.subrange(0, m as int).push(new));
        vstd::seq_lib::to_multiset_insert(sorted, index, new);
        vstd::seq_lib::to_multiset_build(candidates.subrange(0, m as int), new);
    }
}

/// The candidates after a fix with candidates of its own are at least one and at
/// most as many as are kept.
pub proof fn law_frontier_is_bounded(
    state: Frontier,
    location: UserLocation,
    emissions: Seq<SnapCandidate>,
    config: UzmatchConfig,
    raw_distance: Binary64,
    table: Seq<Seq<Option<Binary64>>>,
)
    ensures
        ({
            let after = updated(state, location, emissions, config, raw_distance, table).0;
            &&& after.candidates.len() <= MAX_SNAP_CANDIDATES
            &&& after.candidates.len() > 0 <==> emissions.len() > 0
        }),
{
    let after = updated(state, location, emissions, config, raw_distance, table).0;
    if emissions.len() > 0 {
        let continued = if carries_over(state, location, emissions) {
            reached(
                carried(state),
                emissions,
                (usable_gap(state.previous_location, location)->0).1,
                config,
                raw_distance,
                table,
                emissions.len(),
            )
        } else {
            Seq::empty()
        };
        let candidates = if continued.len() > 0 {
            continued
        } else {
            seeds(emissions)
        };
        law_sorting(candidates, candidates.len());
    }
}

/// The best of normalized candidates with finite likelihoods has the logarithm
/// zero, and no other has a greater one.
pub proof fn law_normalized_maximum_is_zero(candidates: Seq<TemporalCandidate>)
    requires
        candidates.len() > 0,
        forall|i: int|
            0 <= i < candidates.len() ==> (
            #[trigger] candidates[i]).accumulated_log_likelihood.is_finite(),
    ensures
        normalized(candidates).len() > 0,
        normalized(candidates)[0].accumulated_log_likelihood == number(ZERO),
        forall|i: int|
            0 <= i < normalized(candidates).len() ==> (#[trigger] normalized(
                candidates,
            )[i]).accumulated_log_likelihood.at_most(number(ZERO)),
{
    broadcast use vstd::seq_lib::group_to_multiset_ensures;

    let n = candidates.len();
    law_sorting(candidates, n);
    assert(candidates.subrange(0, n as int) =~= candidates);
    let sorted = stably_sorted(candidates, n);
    let kept = bounded(sorted);
    let best = kept[0].accumulated_log_likelihood;
    assert forall|i: int| 0 <= i < kept.len() implies (
    #[trigger] kept[i]).accumulated_log_likelihood.is_finite() && kept[i].accumulated_log_likelihood.at_most(
        best,
    ) by {
        assert(kept[i] == sorted[i]);
        assert(sorted.contains(sorted[i]));
        assert(sorted.to_multiset().count(sorted[i]) > 0);
        assert(candidates.to_multiset().count(sorted[i]) > 0);
        assert(candidates.contains(sorted[i]));
        assert(sorted.contains(sorted[0]));
        assert(candidates.to_multiset().count(sorted[0]) > 0);
        assert(candidates.contains(sorted[0]));
        if i > 0 {
            assert(!likelier(sorted[i], sorted[0]));
        }
    }
    crate::arithmetic::law_difference_with_itself(best);
    assert forall|i: int| 0 <= i < normalized(candidates).len() implies (#[trigger] normalized(
        candidates,
    )[i]).accumulated_log_likelihood.at_most(number(ZERO)) by {
        crate::arithmetic::law_difference_has_the_sign_of_the_order(
            kept[i].accumulated_log_likelihood,
            best,
        );
    }
}

/// A fix without one before it, and a fix too late, out of order or at the same
/// instant, starts the candidates anew from its own.
pub proof fn law_unusable_gap_starts_anew(
    state: Frontier,
    location: UserLocation,
    emissions: Seq<SnapCandidate>,
    config: UzmatchConfig,
    raw_distance: Binary64,
    table: Seq<Seq<Option<Binary64>>>,
)
    requires
        emissions.len() > 0,
        state.previous_location is Some ==> {
            let gap = location.timestamp.instant() - state.previous_location->0.timestamp.instant();
            gap <= 0 || gap > MAX_SIGNAL_GAP * 1_000_000
        },
    ensures
        updated(state, location, emissions, config, raw_distance, table) == (
            Frontier {
                candidates: normalized(seeds(emissions)),
                previous_location: Some(location),
            },
            false,
        ),
{
}

/// A state with more candidates than are kept is not carried over: the candidates
/// start anew.
pub proof fn law_oversized_frontier_starts_anew(
    state: Frontier,
    location: UserLocation,
    emissions: Seq<SnapCandidate>,
    config: UzmatchConfig,
    raw_distance: Binary64,
    table: Seq<Seq<Option<Binary64>>>,
)
    requires
        emissions.len() > 0,
        state.candidates.len() > MAX_SNAP_CANDIDATES,
    ensures
        updated(state, location, emissions, config, raw_distance, table).0.candidates == normalized(
            seeds(emissions),
        ),
        !updated(state, location, emissions, config, raw_distance, table).1,
        anchor(state, location) is None,
{
}

} // verus!
