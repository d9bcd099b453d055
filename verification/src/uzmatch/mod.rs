//! The matching core: classifies fixes, detects standing, filters speeds and binds
//! each eligible fix to the route.
use vstd::prelude::*;

use crate::binary64::{number, Binary64, ZERO};
use crate::lists::copied;
use crate::models::{GeographicCoordinate, Route, UserLocation};
use crate::time::{Span, Timestamp};
use crate::uzmatch::location_class::{LocationClassState, UzLocationClass};
use crate::uzmatch::snap::{
    candidates_for, indexed_segments, measured_segments, segment_count, IndexedSegment,
    RoutePosition, RouteSnapIndex, SegmentMeasure, SnapCandidate, MAX_SNAP_CANDIDATES,
};
use crate::uzmatch::speed_filter::SpeedSample;
use crate::uzmatch::standing::{no_signals, StandingState};
use crate::uzmatch::temporal::{
    anchor, carried, carries_over, has_shape, jump_offset_endpoint, leading_position, no_frontier,
    offset_endpoint, updated, Frontier, TemporalCandidate, TemporalMatchState, TransitionMeasures,
};

pub mod chain_laws;
pub mod curve_bounds;
pub mod location_class;
pub mod motion;
pub mod motion_bounds;
pub mod motion_ends;
pub mod motion_laws;
pub mod motion_speeds;
pub mod snap;
pub mod snap_laws;
pub mod speed_filter;
pub mod standing;
pub mod state_laws;
pub mod stream_laws;
pub mod temporal;
pub mod temporal_laws;

verus! {

/// 0.5
pub const DEFAULT_STANDING_SPEED: u64 = 0x3fe0_0000_0000_0000;

/// 8.0
pub const DEFAULT_POSITION_DEVIATION: u64 = 0x4020_0000_0000_0000;

/// 6.0
pub const DEFAULT_HEADING_DEVIATION: u64 = 0x4018_0000_0000_0000;

/// 4.0
pub const DEFAULT_HEADING_SPEED: u64 = 0x4010_0000_0000_0000;

/// 25.0
pub const DEFAULT_FINE_ACCURACY: u64 = 0x4039_0000_0000_0000;

/// 33.25: the radius, in metres, within which a route loss is held back.
pub const CLING_DISTANCE_METERS: u64 = 0x4040_a000_0000_0000;

/// The milliseconds for which a route loss is held back.
pub const CLING_TIME_MS: u64 = 2_000;

/// 0.8
pub const DEFAULT_DEPARTURE_SPEED: u64 = 0x3fe9_9999_9999_999a;

/// 60.0
pub const DEFAULT_DEPARTURE_TOLERANCE: u64 = 0x404e_0000_0000_0000;

/// The settings of the matching core.
#[derive(Clone, Copy, PartialEq, Eq, Structural, Debug)]
pub struct UzmatchConfig {
    /// Whether the matching core runs at all.
    pub enabled: bool,
    /// Speeds up to this, in metres per second, count as standing.
    pub standing_speed_threshold_mps: Binary64,
    /// The milliseconds that standing signals must span to count as standing.
    pub standing_detection_period_ms: u64,
    /// The milliseconds after which standing signals are forgotten.
    pub standing_signal_expiry_ms: u64,
    /// The standard deviation of a fix from the route, in metres.
    pub snap_position_stddev_m: Binary64,
    /// The standard deviation of a course from the route, in degrees.
    pub snap_heading_stddev_deg: Binary64,
    /// Below this speed, in metres per second, the course is ignored.
    pub snap_heading_min_speed_mps: Binary64,
    /// A fix with at most this accuracy, in metres, is fine.
    pub fine_accuracy_threshold_m: Binary64,
    /// A route loss is held back within this distance, in metres, of the last
    /// position that was accepted as on the route.
    pub cling_distance_m: Binary64,
    /// A route loss is held back for these milliseconds after that position.
    pub cling_time_ms: u64,
    /// Whether a course that keeps diverging from the route at a vertex counts as
    /// leaving the route.
    pub heading_departure_enabled: bool,
    /// Slower fixes, in metres per second, never count as diverging.
    pub heading_departure_min_speed_mps: Binary64,
    /// The divergence, in degrees, above which a fix counts.
    pub heading_departure_tolerance_deg: Binary64,
    /// The number of diverging fixes in a row that count as leaving the route.
    pub heading_departure_confirmations: u8,
}

/// The settings that hold where none are given.
pub open spec fn default_config() -> UzmatchConfig {
    UzmatchConfig {
        enabled: false,
        standing_speed_threshold_mps: number(DEFAULT_STANDING_SPEED),
        standing_detection_period_ms: 7_000,
        standing_signal_expiry_ms: 5_000,
        snap_position_stddev_m: number(DEFAULT_POSITION_DEVIATION),
        snap_heading_stddev_deg: number(DEFAULT_HEADING_DEVIATION),
        snap_heading_min_speed_mps: number(DEFAULT_HEADING_SPEED),
        fine_accuracy_threshold_m: number(DEFAULT_FINE_ACCURACY),
        cling_distance_m: number(CLING_DISTANCE_METERS),
        cling_time_ms: CLING_TIME_MS,
        heading_departure_enabled: false,
        heading_departure_min_speed_mps: number(DEFAULT_DEPARTURE_SPEED),
        heading_departure_tolerance_deg: number(DEFAULT_DEPARTURE_TOLERANCE),
        heading_departure_confirmations: 3,
    }
}

/// The cling radius where none is given.
pub fn default_cling_distance_m() -> (r: Binary64)
    ensures
        r == number(CLING_DISTANCE_METERS),
{
    number(CLING_DISTANCE_METERS)
}

/// The cling time where none is given.
pub fn default_cling_time_ms() -> (r: u64)
    ensures
        r == CLING_TIME_MS,
{
    CLING_TIME_MS
}

/// The least speed of a diverging fix where none is given.
pub fn default_heading_departure_min_speed_mps() -> (r: Binary64)
    ensures
        r == number(DEFAULT_DEPARTURE_SPEED),
{
    number(DEFAULT_DEPARTURE_SPEED)
}

/// The tolerated divergence where none is given.
pub fn default_heading_departure_tolerance_deg() -> (r: Binary64)
    ensures
        r == number(DEFAULT_DEPARTURE_TOLERANCE),
{
    number(DEFAULT_DEPARTURE_TOLERANCE)
}

/// The number of diverging fixes where none is given.
pub fn default_heading_departure_confirmations() -> (r: u8)
    ensures
        r == 3,
{
    3
}

impl Default for UzmatchConfig {
    /// The settings that hold where none are given; the core does not run.
    fn default() -> (r: Self)
        ensures
            r == default_config(),
    {
        UzmatchConfig {
            enabled: false,
            standing_speed_threshold_mps: number(DEFAULT_STANDING_SPEED),
            standing_detection_period_ms: 7_000,
            standing_signal_expiry_ms: 5_000,
            snap_position_stddev_m: number(DEFAULT_POSITION_DEVIATION),
            snap_heading_stddev_deg: number(DEFAULT_HEADING_DEVIATION),
            snap_heading_min_speed_mps: number(DEFAULT_HEADING_SPEED),
            fine_accuracy_threshold_m: number(DEFAULT_FINE_ACCURACY),
            cling_distance_m: default_cling_distance_m(),
            cling_time_ms: default_cling_time_ms(),
            heading_departure_enabled: false,
            heading_departure_min_speed_mps: default_heading_departure_min_speed_mps(),
            heading_departure_tolerance_deg: default_heading_departure_tolerance_deg(),
            heading_departure_confirmations: default_heading_departure_confirmations(),
        }
    }
}

/// What the matching core tells of a fix.
#[derive(Clone, Copy, PartialEq, Eq, Structural, Debug)]
pub struct UzmatchSnapshot {
    /// The position on the route; none where the fix was not eligible for one.
    pub route_position: Option<RoutePosition>,
    /// Whether the user stands still.
    pub is_standing: bool,
    /// How far the position can be trusted.
    pub location_class: UzLocationClass,
    /// The filtered speed; none with fewer than two fresh speeds.
    pub filtered_speed_mps: Option<Binary64>,
}

/// The last position that was accepted as on the route, and when. A route loss is
/// held back until a fix is far enough from it, both in time and in distance.
#[derive(Clone, Copy, PartialEq, Eq, Structural, Debug)]
pub struct ClingState {
    /// The position.
    pub anchor: Option<GeographicCoordinate>,
    /// When it was accepted.
    pub anchored_at: Option<Timestamp>,
}

/// No position has been accepted.
pub open spec fn not_clinging() -> ClingState {
    ClingState { anchor: None, anchored_at: None }
}

impl ClingState {
    /// Whether a route loss is far enough from the anchor, in time and in distance.
    pub open spec fn far_enough(
        self,
        location: UserLocation,
        config: UzmatchConfig,
        distance: Binary64,
    ) -> bool {
        let elapsed = location.timestamp.instant() - self.anchored_at->0.instant();
        (elapsed < 0 || elapsed >= Span::from_millis(config.cling_time_ms).nanos)
            && config.cling_distance_m.at_most(distance)
    }

    /// Whether a route loss is held back: with an anchor, until it is far enough.
    pub open spec fn held(
        self,
        location: UserLocation,
        config: UzmatchConfig,
        distance: Binary64,
    ) -> bool {
        self.anchor is Some && self.anchored_at is Some && !self.far_enough(
            location,
            config,
            distance,
        )
    }

    /// The state after a route loss: released where the loss is far enough.
    pub open spec fn after_loss(
        self,
        location: UserLocation,
        config: UzmatchConfig,
        distance: Binary64,
    ) -> ClingState {
        if self.anchor is Some && self.anchored_at is Some && self.far_enough(
            location,
            config,
            distance,
        ) {
            not_clinging()
        } else {
            self
        }
    }

    /// Accepts a position as on the route.
    pub fn anchor_on_route(&mut self, coordinates: GeographicCoordinate, at: Timestamp)
        ensures
            *final(self) == (ClingState { anchor: Some(coordinates), anchored_at: Some(at) }),
    {
        self.anchor = Some(coordinates);
        self.anchored_at = Some(at);
    }

    /// Whether a route loss must still be held back, given how far the fix is from
    /// the anchor. Once it is released the anchor is forgotten.
    pub fn holds(
        &mut self,
        location: &UserLocation,
        config: &UzmatchConfig,
        distance_from_anchor: Binary64,
    ) -> (r: bool)
        ensures
            r == old(self).held(*location, *config, distance_from_anchor),
            *final(self) == old(self).after_loss(*location, *config, distance_from_anchor),
    {
        if self.anchor.is_none() {
            return false;
        }
        let anchored_at: Timestamp = match self.anchored_at {
            Some(anchored_at) => anchored_at,
            None => return false,
        };
        let cling_time: Span = Span::from_millis(config.cling_time_ms);
        let time_elapsed: bool = match location.timestamp.since(anchored_at) {
            Some(elapsed) => elapsed.nanos >= cling_time.nanos,
            None => true,
        };
        if time_elapsed && config.cling_distance_m.at_most(distance_from_anchor) {
            self.anchor = None;
            self.anchored_at = None;
            false
        } else {
            true
        }
    }
}

impl Default for ClingState {
    /// No position has been accepted.
    fn default() -> (r: Self)
        ensures
            r == not_clinging(),
    {
        ClingState { anchor: None, anchored_at: None }
    }
}

/// The state of the matching core from fix to fix.
#[derive(Debug)]
pub struct UzmatchState {
    /// The standing detector.
    pub standing: StandingState,
    /// How far the position can be trusted.
    pub location_class: LocationClassState,
    /// The window of the speed filter.
    pub speed_history: Vec<SpeedSample>,
    /// The latest position on the route.
    pub route_position: Option<RoutePosition>,
    /// The candidates that are carried over to the next fix.
    pub temporal_match: TemporalMatchState,
    /// The last position that was accepted as on the route.
    pub cling: ClingState,
    /// The number of fixes in a row whose course diverged from the route at a vertex.
    pub heading_departure_streak: u8,
}

/// What a state of the matching core holds.
pub struct MatchState {
    /// The standing detector.
    pub standing: StandingState,
    /// How far the position can be trusted.
    pub location_class: LocationClassState,
    /// The window of the speed filter.
    pub speed_history: Seq<SpeedSample>,
    /// The latest position on the route.
    pub route_position: Option<RoutePosition>,
    /// The candidates that are carried over to the next fix.
    pub temporal_match: Frontier,
    /// The last position that was accepted as on the route.
    pub cling: ClingState,
    /// The number of fixes in a row whose course diverged from the route at a vertex.
    pub heading_departure_streak: u8,
}

impl View for UzmatchState {
    type V = MatchState;

    open spec fn view(&self) -> MatchState {
        MatchState {
            standing: self.standing,
            location_class: self.location_class,
            speed_history: self.speed_history@,
            route_position: self.route_position,
            temporal_match: self.temporal_match@,
            cling: self.cling,
            heading_departure_streak: self.heading_departure_streak,
        }
    }
}

/// The state before any fix.
pub open spec fn initial_state() -> MatchState {
    MatchState {
        standing: no_signals(),
        location_class: LocationClassState { class: UzLocationClass::Outdated, since: None },
        speed_history: Seq::empty(),
        route_position: None,
        temporal_match: no_frontier(),
        cling: not_clinging(),
        heading_departure_streak: 0,
    }
}

/// What the caller measures for a fix.
#[derive(Debug)]
pub struct MatchMeasurements {
    /// The length of a degree of longitude at the fix, relative to one of latitude.
    pub longitude_scale: Binary64,
    /// The distance from the fix to its projection on each segment that
    /// `RouteSnapIndex::segments_to_measure` lists, in metres.
    pub distances: Vec<Binary64>,
    /// The transitions that `UzmatchState::transitions_to_measure` lists.
    pub transitions: TransitionMeasures,
}

/// Whether a fix is accurate enough to be bound to the route.
pub open spec fn is_fine(location: UserLocation, config: UzmatchConfig) -> bool {
    location.horizontal_accuracy.is_finite() && number(ZERO).at_most(location.horizontal_accuracy)
        && location.horizontal_accuracy.at_most(config.fine_accuracy_threshold_m)
}

/// The candidates that count; none where there are more than are kept.
pub open spec fn trusted_frontier(state: MatchState) -> Frontier {
    if state.temporal_match.candidates.len() <= MAX_SNAP_CANDIDATES {
        state.temporal_match
    } else {
        no_frontier()
    }
}

/// The class after a fix.
pub open spec fn classified(
    state: LocationClassState,
    location: UserLocation,
    config: UzmatchConfig,
) -> LocationClassState {
    let now = location.timestamp;
    let after = if is_fine(location, config) {
        state.entered(UzLocationClass::Fine, now)
    } else if state.class.is_accurate() {
        state
    } else {
        state.entered(UzLocationClass::Coarse, now)
    };
    after.decayed(now)
}

/// The candidates of a fix around the anchor.
pub open spec fn anchored_candidates(
    state: MatchState,
    segments: Seq<IndexedSegment>,
    location: UserLocation,
    config: UzmatchConfig,
    longitude_scale: Binary64,
    distances: Seq<Binary64>,
) -> Seq<SnapCandidate> {
    candidates_for(
        segments,
        location,
        config,
        anchor(trusted_frontier(state), location),
        longitude_scale,
        distances,
    )
}

/// The candidates after a fix. A fix that is not fine has none. Where none of the
/// candidates around the anchor continues those before, the likeliest of the fix
/// alone start anew.
pub open spec fn matched(
    state: MatchState,
    segments: Seq<IndexedSegment>,
    location: UserLocation,
    config: UzmatchConfig,
    longitude_scale: Binary64,
    distances: Seq<Binary64>,
    raw_distance: Binary64,
    table: Seq<Seq<Option<Binary64>>>,
) -> Frontier {
    if is_fine(location, config) {
        let frontier = trusted_frontier(state);
        let around = anchored_candidates(
            state,
            segments,
            location,
            config,
            longitude_scale,
            distances,
        );
        let (after, continued) = updated(frontier, location, around, config, raw_distance, table);
        if anchor(frontier, location) is Some && !continued {
            let alone = candidates_for(
                segments,
                location,
                config,
                None,
                longitude_scale,
                distances,
            );
            updated(no_frontier(), location, alone, config, raw_distance, table).0
        } else {
            after
        }
    } else {
        no_frontier()
    }
}

/// The standing detector after a fix: only a fine fix that is bound to the route
/// counts, and any other forgets the run.
pub open spec fn stood(
    standing: StandingState,
    location: UserLocation,
    config: UzmatchConfig,
    bound: bool,
) -> StandingState {
    if is_fine(location, config) && bound {
        standing.expired(
            location.timestamp,
            Span::from_millis(config.standing_signal_expiry_ms),
        ).signalled(
            if location.speed is Some {
                Some(location.speed->0.value)
            } else {
                None
            },
            location.timestamp,
            config.standing_speed_threshold_mps,
            Span::from_millis(config.standing_detection_period_ms),
        )
    } else {
        no_signals()
    }
}

/// The state after a fix.
pub open spec fn stepped(
    state: MatchState,
    segments: Seq<IndexedSegment>,
    location: UserLocation,
    config: UzmatchConfig,
    longitude_scale: Binary64,
    distances: Seq<Binary64>,
    raw_distance: Binary64,
    table: Seq<Seq<Option<Binary64>>>,
) -> MatchState {
    let frontier = matched(
        state,
        segments,
        location,
        config,
        longitude_scale,
        distances,
        raw_distance,
        table,
    );
    let position = leading_position(frontier);
    MatchState {
        standing: stood(state.standing, location, config, position is Some),
        location_class: classified(state.location_class, location, config),
        speed_history: if location.speed is Some {
            speed_filter::appended(
                state.speed_history,
                SpeedSample {
                    speed_mps: location.speed->0.value,
                    timestamp: location.timestamp,
                },
            )
        } else {
            state.speed_history
        },
        route_position: position,
        temporal_match: frontier,
        cling: state.cling,
        heading_departure_streak: state.heading_departure_streak,
    }
}

/// Whether the measurements for a fix are those that it needs.
pub open spec fn measured_for(
    measurements: MatchMeasurements,
    state: MatchState,
    segments: Seq<IndexedSegment>,
    location: UserLocation,
    config: UzmatchConfig,
) -> bool {
    is_fine(location, config) ==> {
        &&& measurements.distances@.len() == measured_segments(
            segments,
            location,
            measurements.longitude_scale,
        ).len()
        &&& ({
            let around = anchored_candidates(
                state,
                segments,
                location,
                config,
                measurements.longitude_scale,
                measurements.distances@,
            );
            carries_over(trusted_frontier(state), location, around) ==> has_shape(
                measurements.transitions.table(),
                around.len(),
                carried(trusted_frontier(state)).len(),
            )
        })
    }
}

/// What the matching core tells of a state at an instant.
pub open spec fn snapshot_of(state: MatchState, now: Timestamp) -> UzmatchSnapshot {
    UzmatchSnapshot {
        route_position: state.route_position,
        is_standing: state.standing.is_standing,
        location_class: state.location_class.decayed(now).class,
        filtered_speed_mps: speed_filter::filtered(speed_filter::cleaned(state.speed_history, now)),
    }
}

/// The state after it was asked at an instant.
pub open spec fn asked(state: MatchState, now: Timestamp) -> MatchState {
    MatchState {
        location_class: state.location_class.decayed(now),
        speed_history: speed_filter::cleaned(state.speed_history, now),
        ..state
    }
}

impl Default for UzmatchState {
    /// The state before any fix.
    fn default() -> (r: Self)
        ensures
            r@ == initial_state(),
    {
        UzmatchState {
            standing: StandingState::default(),
            location_class: LocationClassState::default(),
            speed_history: Vec::new(),
            route_position: None,
            temporal_match: TemporalMatchState::default(),
            cling: ClingState::default(),
            heading_departure_streak: 0,
        }
    }
}

/// Whether a fix is accurate enough to be bound to the route.
pub fn is_fine_fix(location: &UserLocation, config: &UzmatchConfig) -> (r: bool)
    ensures
        r == is_fine(*location, *config),
{
    location.horizontal_accuracy.is_finite() && number(ZERO).at_most(location.horizontal_accuracy)
        && location.horizontal_accuracy.at_most(config.fine_accuracy_threshold_m)
}

impl UzmatchState {
    /// The same state.
    pub fn duplicate(&self) -> (r: Self)
        ensures
            r@ == self@,
    {
        UzmatchState {
            standing: self.standing,
            location_class: self.location_class,
            speed_history: copied(&self.speed_history),
            route_position: self.route_position,
            temporal_match: TemporalMatchState {
                candidates: copied(&self.temporal_match.candidates),
                previous_location: self.temporal_match.previous_location,
            },
            cling: self.cling,
            heading_departure_streak: self.heading_departure_streak,
        }
    }

    /// The same state, without candidates where there are more than are kept.
    pub fn copy_for_update(&self) -> (r: Self)
        ensures
            r@ == (MatchState { temporal_match: trusted_frontier(self@), ..self@ }),
    {
        let temporal_match: TemporalMatchState = if self.temporal_match.candidates.len()
            <= MAX_SNAP_CANDIDATES {
            TemporalMatchState {
                candidates: copied(&self.temporal_match.candidates),
                previous_location: self.temporal_match.previous_location,
            }
        } else {
            TemporalMatchState::default()
        };
        UzmatchState {
            standing: self.standing,
            location_class: self.location_class,
            speed_history: copied(&self.speed_history),
            route_position: self.route_position,
            temporal_match,
            cling: self.cling,
            heading_departure_streak: self.heading_departure_streak,
        }
    }

    /// The transitions that a fix needs measured: for each of its candidates and
    /// each carried one, where the change of offset between them leads from the
    /// previous fix. None where no candidates are carried over to the fix.
    pub fn transitions_to_measure(
        &self,
        location: &UserLocation,
        route_index: &RouteSnapIndex,
        config: &UzmatchConfig,
        longitude_scale: Binary64,
        distances: &Vec<Binary64>,
    ) -> (r: Vec<Vec<GeographicCoordinate>>)
        requires
            is_fine(*location, *config) ==> distances@.len() == measured_segments(
                route_index@,
                *location,
                longitude_scale,
            ).len(),
        ensures
            ({
                let frontier = trusted_frontier(self@);
                let around = anchored_candidates(
                    self@,
                    route_index@,
                    *location,
                    *config,
                    longitude_scale,
                    distances@,
                );
                if is_fine(*location, *config) && carries_over(frontier, *location, around) {
                    &&& r@.len() == around.len()
                    &&& forall|e: int|
                        0 <= e < around.len() ==> (#[trigger] r@[e])@ == Seq::new(
                            carried(frontier).len(),
                            |p: int|
                                offset_endpoint(
                                    carried(frontier)[p].route_position,
                                    around[e].route_position,
                                    frontier.previous_location->0,
                                    *location,
                                ),
                        )
                } else {
                    r@.len() == 0
                }
            }),
    {
        let mut table: Vec<Vec<GeographicCoordinate>> = Vec::new();
        if !is_fine_fix(location, config) {
            return table;
        }
        let base: UzmatchState = self.copy_for_update();
        let around: Vec<SnapCandidate> = route_index.candidates_with_anchor(
            location,
            config,
            base.temporal_match.candidate_anchor(location),
            longitude_scale,
            distances,
        );
        if !base.temporal_match.needs_transitions(location, &around) {
            return table;
        }
        let previous: Vec<TemporalCandidate> = base.temporal_match.carried_candidates();
        let fix: UserLocation = match base.temporal_match.previous_location {
            Some(fix) => fix,
            None => return table,
        };
        let mut e: usize = 0;
        while e < around.len()
            invariant
                e <= around.len(),
                table.len() == e,
                forall|k: int|
                    0 <= k < e ==> (#[trigger] table@[k])@ == Seq::new(
                        previous@.len(),
                        |p: int|
                            offset_endpoint(
                                previous@[p].route_position,
                                around@[k].route_position,
                                fix,
                                *location,
                            ),
                    ),
            decreases around.len() - e,
        {
            let mut row: Vec<GeographicCoordinate> = Vec::new();
            let mut p: usize = 0;
            while p < previous.len()
                invariant
                    p <= previous.len(),
                    e < around.len(),
                    row.len() == p,
                    forall|k: int|
                        0 <= k < p ==> row@[k] == offset_endpoint(
                            (#[trigger] previous@[k]).route_position,
                            around@[e as int].route_position,
                            fix,
                            *location,
                        ),
                decreases previous.len() - p,
            {
                row.push(
                    jump_offset_endpoint(
                        &previous[p].route_position,
                        &around[e].route_position,
                        &fix,
                        location,
                    ),
                );
                p = p + 1;
            }
            assert(row@ =~= Seq::new(
                previous@.len(),
                |p: int|
                    offset_endpoint(
                        previous@[p].route_position,
                        around@[e as int].route_position,
                        fix,
                        *location,
                    ),
            ));
            table.push(row);
            e = e + 1;
        }
        table
    }

    /// The state after a fix, on a route whose index is built for this fix alone.
    pub fn update(
        &self,
        location: &UserLocation,
        route: &Route,
        config: &UzmatchConfig,
        measures: &Vec<SegmentMeasure>,
        measurements: &MatchMeasurements,
    ) -> (r: Self)
        requires
            measures.len() == segment_count(route.geometry@.len()),
            measured_for(
                *measurements,
                self@,
                indexed_segments(route.geometry@, measures@),
                *location,
                *config,
            ),
        ensures
            r@ == stepped(
                self@,
                indexed_segments(route.geometry@, measures@),
                *location,
                *config,
                measurements.longitude_scale,
                measurements.distances@,
                measurements.transitions.raw_distance(),
                measurements.transitions.table(),
            ),
    {
        let route_index: RouteSnapIndex = RouteSnapIndex::new(&route.geometry, measures);
        self.update_with_index(location, &route_index, config, measurements)
    }

    /// The state after a fix.
    pub fn update_with_index(
        &self,
        location: &UserLocation,
        route_index: &RouteSnapIndex,
        config: &UzmatchConfig,
        measurements: &MatchMeasurements,
    ) -> (r: Self)
        requires
            measured_for(*measurements, self@, route_index@, *location, *config),
        ensures
            r@ == stepped(
                self@,
                route_index@,
                *location,
                *config,
                measurements.longitude_scale,
                measurements.distances@,
                measurements.transitions.raw_distance(),
                measurements.transitions.table(),
            ),
    {
        let timestamp: Timestamp = location.timestamp;
        let mut next: UzmatchState = self.copy_for_update();
        let fine: bool = is_fine_fix(location, config);
        if fine {
            next.location_class.on_fine_location(timestamp);
        } else {
            next.location_class.on_coarse_location(timestamp);
        }
        next.location_class.state_at(timestamp);

        next.standing.expire_if_stale(
            timestamp,
            Span::from_millis(config.standing_signal_expiry_ms),
        );
        if fine {
            let speed: Option<Binary64> = match location.speed {
                Some(speed) => Some(speed.value),
                None => None,
            };
            next.standing.on_accurate_signal(
                speed,
                timestamp,
                config.standing_speed_threshold_mps,
                Span::from_millis(config.standing_detection_period_ms),
            );
        } else {
            next.standing.reset();
        }

        if let Some(speed) = location.speed {
            speed_filter::append_speed(&mut next.speed_history, speed.value, timestamp);
        }

        if fine {
            let candidate_anchor: Option<RoutePosition> = next.temporal_match.candidate_anchor(
                location,
            );
            let candidates: Vec<SnapCandidate> = route_index.candidates_with_anchor(
                location,
                config,
                candidate_anchor,
                measurements.longitude_scale,
                &measurements.distances,
            );
            let (after, continued): (TemporalMatchState, bool) =
                next.temporal_match.update_with_status(
                location,
                &candidates,
                config,
                &measurements.transitions,
            );
            if candidate_anchor.is_some() && !continued {
                let frame_local: Vec<SnapCandidate> = route_index.candidates_with_anchor(
                    location,
                    config,
                    None,
                    measurements.longitude_scale,
                    &measurements.distances,
                );
                next.temporal_match = TemporalMatchState::default().update(
                    location,
                    &frame_local,
                    config,
                    &measurements.transitions,
                );
            } else {
                next.temporal_match = after;
            }
            next.route_position = next.temporal_match.route_position();
            if next.route_position.is_none() {
                next.standing.reset();
            }
        } else {
            next.temporal_match = TemporalMatchState::default();
            next.route_position = None;
        }
        next
    }

    /// What the matching core tells at an instant.
    pub fn snapshot(&mut self, now: Timestamp) -> (r: UzmatchSnapshot)
        ensures
            r == snapshot_of(old(self)@, now),
            final(self)@ == asked(old(self)@, now),
    {
        let location_class: UzLocationClass = self.location_class.state_at(now);
        let filtered_speed_mps: Option<Binary64> = speed_filter::filtered_speed(
            &mut self.speed_history,
            now,
        );
        UzmatchSnapshot {
            route_position: self.route_position,
            is_standing: self.standing.is_standing,
            location_class,
            filtered_speed_mps,
        }
    }
}

/// A fix that is not fine, be it coarse or of no valid accuracy, is never bound to
/// the route: no position, no candidates, and the standing run is forgotten.
pub proof fn law_unfit_fix_is_not_bound(
    state: MatchState,
    segments: Seq<IndexedSegment>,
    location: UserLocation,
    config: UzmatchConfig,
    longitude_scale: Binary64,
    distances: Seq<Binary64>,
    raw_distance: Binary64,
    table: Seq<Seq<Option<Binary64>>>,
)
    requires
        !is_fine(location, config),
    ensures
        ({
            let after = stepped(
                state,
                segments,
                location,
                config,
                longitude_scale,
                distances,
                raw_distance,
                table,
            );
            &&& after.route_position is None
            &&& after.temporal_match == no_frontier()
            &&& after.standing == no_signals()
        }),
{
}

/// A fix that is not bound to the route never counts as standing.
pub proof fn law_unbound_fix_ends_standing(
    state: MatchState,
    segments: Seq<IndexedSegment>,
    location: UserLocation,
    config: UzmatchConfig,
    longitude_scale: Binary64,
    distances: Seq<Binary64>,
    raw_distance: Binary64,
    table: Seq<Seq<Option<Binary64>>>,
)
    ensures
        ({
            let after = stepped(
                state,
                segments,
                location,
                config,
                longitude_scale,
                distances,
                raw_distance,
                table,
            );
            after.route_position is None ==> after.standing == no_signals()
        }),
{
}

/// After a fix there are at most as many candidates as are kept, and a position
/// exactly where there is a candidate, which is the first one's.
pub proof fn law_state_is_bounded(
    state: MatchState,
    segments: Seq<IndexedSegment>,
    location: UserLocation,
    config: UzmatchConfig,
    longitude_scale: Binary64,
    distances: Seq<Binary64>,
    raw_distance: Binary64,
    table: Seq<Seq<Option<Binary64>>>,
)
    ensures
        ({
            let after = stepped(
                state,
                segments,
                location,
                config,
                longitude_scale,
                distances,
                raw_distance,
                table,
            );
            &&& after.temporal_match.candidates.len() <= MAX_SNAP_CANDIDATES
            &&& after.route_position is Some <==> after.temporal_match.candidates.len() > 0
            &&& after.route_position is Some ==> after.route_position->0
                == after.temporal_match.candidates[0].route_position
        }),
{
    if is_fine(location, config) {
        let frontier = trusted_frontier(state);
        let around = anchored_candidates(
            state,
            segments,
            location,
            config,
            longitude_scale,
            distances,
        );
        temporal::law_frontier_is_bounded(
            frontier,
            location,
            around,
            config,
            raw_distance,
            table,
        );
        let alone = candidates_for(segments, location, config, None, longitude_scale, distances);
        temporal::law_frontier_is_bounded(
            no_frontier(),
            location,
            alone,
            config,
            raw_distance,
            table,
        );
    }
}

/// A coarse fix leaves an accurate class to its decay.
pub proof fn law_coarse_fix_keeps_an_accurate_class(
    state: LocationClassState,
    location: UserLocation,
    config: UzmatchConfig,
)
    requires
        !is_fine(location, config),
        state.class.is_accurate(),
    ensures
        classified(state, location, config) == state.decayed(location.timestamp),
{
}

/// A route loss is released only beyond both the cling time and the cling distance,
/// and the anchor is then forgotten, so that the next loss is not held back. A loss
/// that is held back leaves the anchor as it is.
pub proof fn law_cling_releases_once(
    cling: ClingState,
    location: UserLocation,
    config: UzmatchConfig,
    distance: Binary64,
    later: UserLocation,
    later_distance: Binary64,
)
    requires
        cling.anchor is Some,
        cling.anchored_at is Some,
        cling.anchored_at->0.instant() <= location.timestamp.instant(),
    ensures
        !cling.held(location, config, distance) <==> location.timestamp.instant()
            - cling.anchored_at->0.instant() >= config.cling_time_ms * 1_000_000
            && config.cling_distance_m.at_most(distance),
        !cling.held(location, config, distance) ==> !cling.after_loss(
            location,
            config,
            distance,
        ).held(later, config, later_distance),
        cling.held(location, config, distance) ==> cling.after_loss(location, config, distance)
            == cling,
{
}

} // verus!
