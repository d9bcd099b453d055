//! Detects that the user stands still.
use vstd::prelude::*;

use crate::binary64::Binary64;
use crate::time::{Span, Timestamp};

verus! {

/// The run of standing signals that the detector has seen.
#[derive(Clone, Copy, PartialEq, Eq, Structural, Debug)]
pub struct StandingState {
    /// The first standing signal of the run.
    pub oldest_signal: Option<Timestamp>,
    /// The last standing signal of the run.
    pub latest_signal: Option<Timestamp>,
    /// Whether the run was long enough to count as standing.
    pub is_standing: bool,
}

/// A detector that has seen no standing signal.
pub open spec fn no_signals() -> StandingState {
    StandingState { oldest_signal: None, latest_signal: None, is_standing: false }
}

impl StandingState {
    /// The detector at `now`: without its history where the latest signal is older
    /// than the expiry.
    pub open spec fn expired(self, now: Timestamp, signal_expiry: Span) -> Self {
        if self.latest_signal is Some && now.instant() - self.latest_signal->0.instant()
            > signal_expiry.nanos {
            no_signals()
        } else {
            self
        }
    }

    /// The detector after an accurate fix. A speed above the threshold ends the
    /// run; any other fix continues it, and once it spans the detection period the
    /// user stands.
    pub open spec fn signalled(
        self,
        speed_mps: Option<Binary64>,
        timestamp: Timestamp,
        speed_threshold: Binary64,
        detection_period: Span,
    ) -> Self {
        if speed_mps is Some && speed_threshold.less(speed_mps->0) {
            no_signals()
        } else {
            let oldest = if self.oldest_signal is Some {
                self.oldest_signal->0
            } else {
                timestamp
            };
            let span = if timestamp.instant() >= oldest.instant() {
                timestamp.instant() - oldest.instant()
            } else {
                0
            };
            StandingState {
                oldest_signal: Some(oldest),
                latest_signal: Some(timestamp),
                is_standing: self.is_standing || span >= detection_period.nanos,
            }
        }
    }

    /// Forgets the run.
    pub fn reset(&mut self)
        ensures
            *final(self) == no_signals(),
    {
        self.oldest_signal = None;
        self.latest_signal = None;
        self.is_standing = false;
    }

    /// Forgets the run where its latest signal is older than the expiry.
    pub fn expire_if_stale(&mut self, now: Timestamp, signal_expiry: Span)
        ensures
            *final(self) == old(self).expired(now, signal_expiry),
    {
        if let Some(latest) = self.latest_signal {
            if let Some(age) = now.since(latest) {
                if age.nanos > signal_expiry.nanos {
                    self.reset();
                }
            }
        }
    }

    /// Takes in an accurate fix.
    pub fn on_accurate_signal(
        &mut self,
        speed_mps: Option<Binary64>,
        timestamp: Timestamp,
        speed_threshold: Binary64,
        detection_period: Span,
    )
        ensures
            *final(self) == old(self).signalled(
                speed_mps,
                timestamp,
                speed_threshold,
                detection_period,
            ),
    {
        if let Some(speed) = speed_mps {
            if speed_threshold.less(speed) {
                self.reset();
                return;
            }
        }
        let oldest: Timestamp = match self.oldest_signal {
            Some(oldest) => oldest,
            None => timestamp,
        };
        self.oldest_signal = Some(oldest);
        self.latest_signal = Some(timestamp);
        let standing_time: Span = match timestamp.since(oldest) {
            Some(span) => span,
            None => Span { nanos: 0 },
        };
        if standing_time.nanos >= detection_period.nanos {
            self.is_standing = true;
        }
    }
}

impl Default for StandingState {
    /// No signal has been seen.
    fn default() -> (r: Self)
        ensures
            r == no_signals(),
    {
        StandingState { oldest_signal: None, latest_signal: None, is_standing: false }
    }
}

/// A fix above the threshold ends standing and forgets the run.
pub proof fn law_standing_ends(
    state: StandingState,
    speed: Binary64,
    timestamp: Timestamp,
    speed_threshold: Binary64,
    period: Span,
)
    requires
        speed_threshold.less(speed),
    ensures
        !state.signalled(Some(speed), timestamp, speed_threshold, period).is_standing,
        state.signalled(Some(speed), timestamp, speed_threshold, period).oldest_signal is None,
{
}

/// Once the latest signal is too old, the run is forgotten.
pub proof fn law_stale_run_is_forgotten(state: StandingState, now: Timestamp, signal_expiry: Span)
    requires
        state.latest_signal is Some,
        now.instant() - state.latest_signal->0.instant() > signal_expiry.nanos,
    ensures
        state.expired(now, signal_expiry) == no_signals(),
{
}

/// A run of two standing signals that spans the detection period is standing; one
/// that falls short of it is not.
pub proof fn law_standing_takes_the_detection_period(
    first: Timestamp,
    second: Timestamp,
    speed: Option<Binary64>,
    speed_threshold: Binary64,
    period: Span,
)
    requires
        first.instant() <= second.instant(),
        speed is Some ==> !speed_threshold.less(speed->0),
        period.nanos > 0,
    ensures
        no_signals().signalled(speed, first, speed_threshold, period).signalled(
            speed,
            second,
            speed_threshold,
            period,
        ).is_standing <==> second.instant() - first.instant() >= period.nanos,
{
}

/// A fix without a speed, or of one up to the threshold, continues the run: the first signal
/// stays the oldest and the fix is the latest. The user stands from the first fix on that is
/// the detection period or more later than the oldest signal, until the run ends.
pub proof fn law_slow_fixes_continue_the_run(
    state: StandingState,
    speed: Option<Binary64>,
    timestamp: Timestamp,
    speed_threshold: Binary64,
    period: Span,
)
    requires
        speed is Some ==> !speed_threshold.less(speed->0),
    ensures
        ({
            let after = state.signalled(speed, timestamp, speed_threshold, period);
            let oldest = match state.oldest_signal {
                Some(oldest) => oldest,
                None => timestamp,
            };
            let elapsed = timestamp.instant() - oldest.instant();
            &&& after.oldest_signal == Some(oldest)
            &&& after.latest_signal == Some(timestamp)
            &&& after.is_standing <==> {
                ||| state.is_standing
                ||| elapsed >= period.nanos
                ||| period.nanos == 0
            }
        }),
{
}

/// A run is forgotten exactly where its latest signal is older than the expiry.
pub proof fn law_fresh_runs_are_kept(state: StandingState, now: Timestamp, signal_expiry: Span)
    ensures
        ({
            let after = state.expired(now, signal_expiry);
            let is_stale = state.latest_signal is Some && state.latest_signal->0.instant()
                + signal_expiry.nanos < now.instant();
            &&& !is_stale ==> after == state
            &&& is_stale ==> after.oldest_signal is None && after.latest_signal is None
                && !after.is_standing
        }),
{
}

} // verus!
