//! What holds of the state of the matching core, from fix to fix.
use vstd::prelude::*;

use crate::binary64::{number, Binary64};
use crate::models::UserLocation;
use crate::time::{Span, Timestamp};
use crate::uzmatch::location_class::{LocationClassState, UzLocationClass};
use crate::uzmatch::snap::{candidates_for, IndexedSegment};
use crate::uzmatch::speed_filter::{appended, cleaned, filtered, SpeedSample};
use crate::uzmatch::standing::StandingState;
use crate::uzmatch::temporal::{anchor, updated, Frontier};
use crate::uzmatch::{
    asked, classified, default_config, initial_state, is_fine, matched, not_clinging, snapshot_of,
    stepped, stood, trusted_frontier, ClingState, MatchState, UzmatchConfig,
};

verus! {

/// The settings that hold where none are given.
pub proof fn law_the_settings_where_none_are_given()
    ensures
        ({
            let config = default_config();
            &&& !config.enabled
            &&& config.standing_speed_threshold_mps == number(0x3fe0_0000_0000_0000)
            &&& config.standing_detection_period_ms == 7_000
            &&& config.standing_signal_expiry_ms == 5_000
            &&& config.snap_position_stddev_m == number(0x4020_0000_0000_0000)
            &&& config.snap_heading_stddev_deg == number(0x4018_0000_0000_0000)
            &&& config.snap_heading_min_speed_mps == number(0x4010_0000_0000_0000)
            &&& config.fine_accuracy_threshold_m == number(0x4039_0000_0000_0000)
            &&& config.cling_distance_m == number(0x4040_a000_0000_0000)
            &&& config.cling_time_ms == 2_000
            &&& !config.heading_departure_enabled
            &&& config.heading_departure_min_speed_mps == number(0x3fe9_9999_9999_999a)
            &&& config.heading_departure_tolerance_deg == number(0x404e_0000_0000_0000)
            &&& config.heading_departure_confirmations == 3
        }),
{
}

/// Before any fix nothing is known: no signals, no speeds, no position, no candidates and no
/// anchor, and the position is outdated.
pub proof fn law_nothing_is_known_at_first()
    ensures
        ({
            let state = initial_state();
            &&& state.standing.oldest_signal is None
            &&& state.standing.latest_signal is None
            &&& !state.standing.is_standing
            &&& state.location_class.class == UzLocationClass::Outdated
            &&& state.location_class.since is None
            &&& state.speed_history.len() == 0
            &&& state.route_position is None
            &&& state.temporal_match.candidates.len() == 0
            &&& state.temporal_match.previous_location is None
            &&& state.cling.anchor is None
            &&& state.cling.anchored_at is None
            &&& state.heading_departure_streak == 0
        }),
{
}

/// A fix is fine exactly where its accuracy is a number from nothing up to the threshold, that
/// one included.
pub proof fn law_fine_fixes_are_within_the_threshold(location: UserLocation, config: UzmatchConfig)
    ensures
        is_fine(location, config) <==> {
            &&& !location.horizontal_accuracy.is_nan()
            &&& !location.horizontal_accuracy.is_infinite()
            &&& !location.horizontal_accuracy.less(number(0))
            &&& location.horizontal_accuracy.at_most(config.fine_accuracy_threshold_m)
        },
{
}

/// Candidates count where there are ten of them at most; of more, none does.
pub proof fn law_ten_candidates_count(state: MatchState)
    ensures
        state.temporal_match.candidates.len() <= 10 ==> trusted_frontier(state)
            == state.temporal_match,
        state.temporal_match.candidates.len() > 10 ==> trusted_frontier(state).candidates.len()
            == 0 && trusted_frontier(state).previous_location is None,
{
}

/// A fine fix makes the class fine; any other leaves a fine or extrapolated class, and makes
/// one of less trust coarse. What has run out by the fix is then given up.
pub proof fn law_fixes_are_classified(
    state: LocationClassState,
    location: UserLocation,
    config: UzmatchConfig,
)
    ensures
        ({
            let after = classified(state, location, config);
            let now = location.timestamp;
            let is_late = state.since is Some && now.instant() < state.since->0.instant();
            let is_trusted = state.class == UzLocationClass::Fine || state.class
                == UzLocationClass::Extrapolated;
            &&& is_late || (!is_fine(location, config) && is_trusted) ==> after == state.decayed(
                now,
            )
            &&& !is_late && is_fine(location, config) ==> {
                &&& after.class == UzLocationClass::Fine
                &&& after.since == Some(now)
            }
            &&& !is_late && !is_fine(location, config) && !is_trusted ==> {
                &&& after.class == UzLocationClass::Coarse
                &&& after.since == Some(now)
            }
        }),
{
}

/// Only a fine fix that is bound to the route continues a run of standing: the run is
/// forgotten where it has expired, and the fix's speed is then held against the threshold.
pub proof fn law_bound_fixes_count_as_standing(
    standing: StandingState,
    location: UserLocation,
    config: UzmatchConfig,
    bound: bool,
)
    ensures
        ({
            let after = stood(standing, location, config, bound);
            let counts = is_fine(location, config) && bound;
            let speed = match location.speed {
                Some(speed) => Some(speed.value),
                None => None,
            };
            &&& !counts ==> {
                &&& after.oldest_signal is None
                &&& after.latest_signal is None
                &&& !after.is_standing
            }
            &&& counts ==> after == standing.expired(
                location.timestamp,
                Span { nanos: (config.standing_signal_expiry_ms * 1_000_000) as u128 },
            ).signalled(
                speed,
                location.timestamp,
                config.standing_speed_threshold_mps,
                Span { nanos: (config.standing_detection_period_ms * 1_000_000) as u128 },
            )
        }),
{
}

/// A fix that is not fine has no candidates. For a fine one the candidates around the anchor
/// continue those before; where there is an anchor and none of them does, the candidates of
/// the fix alone start anew.
pub proof fn law_fine_fixes_are_matched(
    state: MatchState,
    segments: Seq<IndexedSegment>,
    location: UserLocation,
    config: UzmatchConfig,
    longitude_scale: Binary64,
    distances: Seq<Binary64>,
    raw_distance: Binary64,
    table: Seq<Seq<Option<Binary64>>>,
)
    ensures
        ({
            let after = matched(
                state,
                segments,
                location,
                config,
                longitude_scale,
                distances,
                raw_distance,
                table,
            );
            let before = trusted_frontier(state);
            let from = anchor(before, location);
            let around = candidates_for(
                segments,
                location,
                config,
                from,
                longitude_scale,
                distances,
            );
            let alone = candidates_for(
                segments,
                location,
                config,
                None,
                longitude_scale,
                distances,
            );
            let nothing = Frontier { candidates: Seq::empty(), previous_location: None };
            let (next, continued) = updated(before, location, around, config, raw_distance, table);
            &&& !is_fine(location, config) ==> after == nothing
            &&& is_fine(location, config) && (from is None || continued) ==> after == next
            &&& is_fine(location, config) && from is Some && !continued ==> after == updated(
                nothing,
                location,
                alone,
                config,
                raw_distance,
                table,
            ).0
        }),
{
}

/// A fix moves every part of the state on: its position is that of the likeliest candidate,
/// its speed joins the window where it has one, and neither the anchor of a route loss nor the
/// count of diverging fixes is touched.
pub proof fn law_a_fix_moves_the_state_on(
    state: MatchState,
    segments: Seq<IndexedSegment>,
    location: UserLocation,
    config: UzmatchConfig,
    longitude_scale: Binary64,
    distances: Seq<Binary64>,
    raw_distance: Binary64,
    table: Seq<Seq<Option<Binary64>>>,
)
    ensures
        ({
            let after = stepped(
                state,
                segments,
                location,
                config,
                longitude_scale,
                distances,
                raw_distance,
                table,
            );
            let frontier = matched(
                state,
                segments,
                location,
                config,
                longitude_scale,
                distances,
                raw_distance,
                table,
            );
            &&& after.temporal_match == frontier
            &&& frontier.candidates.len() == 0 ==> after.route_position is None
            &&& frontier.candidates.len() > 0 ==> after.route_position == Some(
                frontier.candidates[0].route_position,
            )
            &&& after.standing == stood(
                state.standing,
                location,
                config,
                frontier.candidates.len() > 0,
            )
            &&& after.location_class == classified(state.location_class, location, config)
            &&& location.speed is None ==> after.speed_history == state.speed_history
            &&& location.speed is Some ==> after.speed_history == appended(
                state.speed_history,
                SpeedSample {
                    speed_mps: location.speed->0.value,
                    timestamp: location.timestamp,
                },
            )
            &&& after.cling == state.cling
            &&& after.heading_departure_streak == state.heading_departure_streak
        }),
{
}

/// What is told at an instant is the position and the standing as of the last fix, and the
/// class and the speed as of that instant. Asking gives up what has run out by then, and
/// changes nothing else.
pub proof fn law_the_state_is_told_as_of_now(state: MatchState, now: Timestamp)
    ensures
        ({
            let told = snapshot_of(state, now);
            let after = asked(state, now);
            &&& told.route_position == state.route_position
            &&& told.is_standing == state.standing.is_standing
            &&& told.location_class == state.location_class.decayed(now).class
            &&& told.filtered_speed_mps == filtered(cleaned(state.speed_history, now))
            &&& after.location_class == state.location_class.decayed(now)
            &&& after.speed_history == cleaned(state.speed_history, now)
            &&& after.standing == state.standing
            &&& after.route_position == state.route_position
            &&& after.temporal_match == state.temporal_match
            &&& after.cling == state.cling
            &&& after.heading_departure_streak == state.heading_departure_streak
        }),
{
}

/// A route loss before the anchor was set is held back by distance alone. Without an anchor
/// none is held back, and nothing is forgotten.
pub proof fn law_route_losses_cling_to_an_anchor(
    cling: ClingState,
    location: UserLocation,
    config: UzmatchConfig,
    distance: Binary64,
)
    ensures
        cling.anchor is None || cling.anchored_at is None ==> !cling.held(
            location,
            config,
            distance,
        ) && cling.after_loss(location, config, distance) == cling,
        cling.anchor is Some && cling.anchored_at is Some && location.timestamp.instant()
            < cling.anchored_at->0.instant() ==> (cling.held(location, config, distance)
            <==> !config.cling_distance_m.at_most(distance)),
        cling.anchor is Some && cling.anchored_at is Some && !cling.held(
            location,
            config,
            distance,
        ) ==> cling.after_loss(location, config, distance).anchor is None && cling.after_loss(
            location,
            config,
            distance,
        ).anchored_at is None,
        not_clinging().anchor is None,
        not_clinging().anchored_at is None,
{
}

} // verus!
