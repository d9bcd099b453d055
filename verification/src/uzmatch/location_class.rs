//! How far the position can be trusted, given when it was last known.
use vstd::prelude::*;

use crate::time::{end_of_time, timestamp_at, Span, Timestamp};

verus! {

/// Milliseconds for which a fine fix stays fine.
pub const EXACT_LOCATION_TIMEOUT: u64 = 3_000;

/// Milliseconds for which an extrapolated position stays accurate.
pub const EXTRAPOLATED_LOCATION_TIMEOUT: u64 = 30_000;

/// Milliseconds after which a coarse position must not be shown any more.
pub const COARSE_LOCATION_TIMEOUT: u64 = 180_000;

/// How far the position can be trusted.
#[derive(Clone, Copy, PartialEq, Eq, Structural, Debug)]
pub enum UzLocationClass {
    /// A fresh accurate fix.
    Fine,
    /// No fine fix for `EXACT_LOCATION_TIMEOUT`: the position is extrapolated.
    Extrapolated,
    /// No accurate position for `EXTRAPOLATED_LOCATION_TIMEOUT`.
    Coarse,
    /// No usable signal for `COARSE_LOCATION_TIMEOUT`: show no position.
    Outdated,
}

impl UzLocationClass {
    /// Whether the class is good enough to bind the position to the route.
    pub open spec fn spec_is_accurate(&self) -> bool {
        *self == UzLocationClass::Fine || *self == UzLocationClass::Extrapolated
    }

    /// Whether the class is good enough to bind the position to the route.
    #[verifier::when_used_as_spec(spec_is_accurate)]
    pub fn is_accurate(&self) -> (r: bool)
        ensures
            r == self.spec_is_accurate(),
    {
        match self {
            UzLocationClass::Fine => true,
            UzLocationClass::Extrapolated => true,
            UzLocationClass::Coarse => false,
            UzLocationClass::Outdated => false,
        }
    }
}

/// The class of the position and the instant since which it holds.
#[derive(Clone, Copy, PartialEq, Eq, Structural, Debug)]
pub struct LocationClassState {
    /// The class.
    pub class: UzLocationClass,
    /// Since when it holds.
    pub since: Option<Timestamp>,
}

/// The class that a class decays to, and the milliseconds that it takes.
pub open spec fn decay(class: UzLocationClass) -> Option<(UzLocationClass, u64)> {
    match class {
        UzLocationClass::Fine => Some((UzLocationClass::Extrapolated, EXACT_LOCATION_TIMEOUT)),
        UzLocationClass::Extrapolated => Some(
            (UzLocationClass::Coarse, EXTRAPOLATED_LOCATION_TIMEOUT),
        ),
        UzLocationClass::Coarse => Some((UzLocationClass::Outdated, COARSE_LOCATION_TIMEOUT)),
        UzLocationClass::Outdated => None,
    }
}

/// The number of decays that a class still has before it.
pub open spec fn decays_left(class: UzLocationClass) -> nat {
    match class {
        UzLocationClass::Fine => 3,
        UzLocationClass::Extrapolated => 2,
        UzLocationClass::Coarse => 1,
        UzLocationClass::Outdated => 0,
    }
}

impl LocationClassState {
    /// The state after an event of a class; one that lies before the last is ignored.
    pub open spec fn entered(self, class: UzLocationClass, event: Timestamp) -> Self {
        if self.since is Some && event.before(self.since->0) {
            self
        } else {
            LocationClassState { class, since: Some(event) }
        }
    }

    /// The state after a coarse fix.
    pub open spec fn seen_coarsely(self, event: Timestamp) -> Self {
        if self.class.is_accurate() {
            self
        } else {
            self.entered(UzLocationClass::Coarse, event)
        }
    }

    /// The state after a coarse fix that is bound to the route.
    pub open spec fn bound_coarsely(self, event: Timestamp) -> Self {
        if self.class == UzLocationClass::Fine {
            self
        } else {
            self.entered(UzLocationClass::Extrapolated, event)
        }
    }

    /// The state at `now`, after every decay whose time has come.
    pub open spec fn decayed(self, now: Timestamp) -> Self
        decreases decays_left(self.class),
    {
        match (self.since, decay(self.class)) {
            (Some(since), Some((next, timeout))) => match since.checked_add(
                Span::from_millis(timeout),
            ) {
                Some(next_at) if !now.before(next_at) => LocationClassState {
                    class: next,
                    since: Some(next_at),
                }.decayed(now),
                _ => self,
            },
            _ => self,
        }
    }

    /// A fine fix makes the class fine.
    pub fn on_fine_location(&mut self, event: Timestamp)
        ensures
            *final(self) == old(self).entered(UzLocationClass::Fine, event),
    {
        self.set_state(UzLocationClass::Fine, event);
    }

    /// A coarse fix makes the class coarse unless the class is accurate.
    pub fn on_coarse_location(&mut self, event: Timestamp)
        ensures
            *final(self) == old(self).seen_coarsely(event),
    {
        if !self.class.is_accurate() {
            self.set_state(UzLocationClass::Coarse, event);
        }
    }

    /// A coarse fix that is bound to the route makes the class extrapolated unless
    /// the class is fine.
    pub fn on_coarse_bound_location(&mut self, event: Timestamp)
        ensures
            *final(self) == old(self).bound_coarsely(event),
    {
        if self.class != UzLocationClass::Fine {
            self.set_state(UzLocationClass::Extrapolated, event);
        }
    }

    /// Applies the decays up to `now` and gives the class there.
    pub fn state_at(&mut self, now: Timestamp) -> (r: UzLocationClass)
        ensures
            *final(self) == old(self).decayed(now),
            r == old(self).decayed(now).class,
    {
        let ghost start = *self;
        loop
            invariant
                start.decayed(now) == self.decayed(now),
            ensures
                *self == start.decayed(now),
            decreases decays_left(self.class),
        {
            let ghost entry = *self;
            let since: Timestamp = match self.since {
                Some(since) => since,
                None => break,
            };
            let (next, timeout): (UzLocationClass, u64) = match self.class {
                UzLocationClass::Fine => (UzLocationClass::Extrapolated, EXACT_LOCATION_TIMEOUT),
                UzLocationClass::Extrapolated => (
                    UzLocationClass::Coarse,
                    EXTRAPOLATED_LOCATION_TIMEOUT,
                ),
                UzLocationClass::Coarse => (UzLocationClass::Outdated, COARSE_LOCATION_TIMEOUT),
                UzLocationClass::Outdated => break,
            };
            let next_at: Timestamp = match since.checked_add(Span::from_millis(timeout)) {
                Some(next_at) => next_at,
                None => break,
            };
            if now.before(next_at) {
                break;
            }
            self.set_state(next, next_at);
        }
        self.class
    }

    fn set_state(&mut self, class: UzLocationClass, timestamp: Timestamp)
        ensures
            *final(self) == old(self).entered(class, timestamp),
    {
        let stale: bool = match self.since {
            Some(since) => timestamp.before(since),
            None => false,
        };
        if !stale {
            self.class = class;
            self.since = Some(timestamp);
        }
    }
}

impl Default for LocationClassState {
    /// Nothing is known yet.
    fn default() -> (r: Self)
        ensures
            r == (LocationClassState { class: UzLocationClass::Outdated, since: None }),
    {
        LocationClassState { class: UzLocationClass::Outdated, since: None }
    }
}

/// A fine fix is fine for three seconds, extrapolated for thirty more, coarse for
/// a hundred and eighty more, and outdated after that.
pub proof fn law_fine_decays(state: LocationClassState, elapsed: nat)
    requires
        state.class == UzLocationClass::Fine,
        state.since is Some,
        state.since->0.instant() + 300_000_000_000 < end_of_time(),
        state.since->0.instant() + elapsed < end_of_time(),
    ensures
        ({
            let now = timestamp_at(state.since->0.instant() + elapsed);
            state.decayed(now).class == (if elapsed < 3_000_000_000 {
                UzLocationClass::Fine
            } else if elapsed < 33_000_000_000 {
                UzLocationClass::Extrapolated
            } else if elapsed < 213_000_000_000 {
                UzLocationClass::Coarse
            } else {
                UzLocationClass::Outdated
            })
        }),
{
    reveal_with_fuel(LocationClassState::decayed, 4);
}

/// An event that lies before the last one changes nothing.
pub proof fn law_late_events_are_ignored(
    state: LocationClassState,
    class: UzLocationClass,
    event: Timestamp,
)
    requires
        state.since is Some,
        event.before(state.since->0),
    ensures
        state.entered(class, event) == state,
{
}

/// Asking for the class twice at one instant changes nothing more.
pub proof fn law_decay_settles(state: LocationClassState, now: Timestamp)
    ensures
        state.decayed(now).decayed(now) == state.decayed(now),
    decreases decays_left(state.class),
{
    match (state.since, decay(state.class)) {
        (Some(since), Some((next, timeout))) => {
            match since.checked_add(Span::from_millis(timeout)) {
                Some(next_at) => {
                    if !now.before(next_at) {
                        law_decay_settles(
                            LocationClassState { class: next, since: Some(next_at) },
                            now,
                        );
                    }
                },
                None => {},
            }
        },
        _ => {},
    }
}

/// An event that is not before the last one gives its class and its instant.
pub proof fn law_events_give_their_class(
    state: LocationClassState,
    class: UzLocationClass,
    event: Timestamp,
)
    requires
        state.since is Some ==> state.since->0.instant() <= event.instant(),
    ensures
        state.entered(class, event).class == class,
        state.entered(class, event).since == Some(event),
{
}

/// A coarse fix leaves a fine or extrapolated class, and makes any other coarse. Bound to the
/// route it leaves a fine class, and makes any other extrapolated. An event before the last
/// one makes neither.
pub proof fn law_coarse_fixes_never_take_trust_away(state: LocationClassState, event: Timestamp)
    ensures
        ({
            let seen = state.seen_coarsely(event);
            let bound = state.bound_coarsely(event);
            let is_late = state.since is Some && event.instant() < state.since->0.instant();
            &&& state.class == UzLocationClass::Fine ==> seen == state && bound == state
            &&& state.class == UzLocationClass::Extrapolated ==> seen == state
            &&& is_late ==> seen == state && bound == state
            &&& !is_late && state.class != UzLocationClass::Fine ==> {
                &&& bound.class == UzLocationClass::Extrapolated
                &&& bound.since == Some(event)
            }
            &&& !is_late && (state.class == UzLocationClass::Coarse || state.class
                == UzLocationClass::Outdated) ==> {
                &&& seen.class == UzLocationClass::Coarse
                &&& seen.since == Some(event)
            }
        }),
{
}

/// A class lasts for its time from when it was given: three seconds fine, thirty extrapolated,
/// a hundred and eighty coarse. When that has passed, the next class holds from then on. What
/// is outdated, or of no instant, stays as it is.
pub proof fn law_each_class_lasts_for_its_time(state: LocationClassState, now: Timestamp)
    requires
        state.since is Some ==> state.since->0.instant() + 180_000_000_000 < end_of_time(),
    ensures
        ({
            let after = state.decayed(now);
            let elapsed = now.instant() - state.since->0.instant();
            let (next, lasts) = match state.class {
                UzLocationClass::Fine => (UzLocationClass::Extrapolated, 3_000_000_000int),
                UzLocationClass::Extrapolated => (UzLocationClass::Coarse, 30_000_000_000int),
                _ => (UzLocationClass::Outdated, 180_000_000_000int),
            };
            &&& state.since is None || state.class == UzLocationClass::Outdated ==> after == state
            &&& state.since is Some && elapsed < lasts ==> after == state
            &&& state.since is Some && state.class != UzLocationClass::Outdated && elapsed
                >= lasts ==> after == (LocationClassState {
                class: next,
                since: Some(timestamp_at(state.since->0.instant() + lasts)),
            }).decayed(now)
        }),
{
}

} // verus!
