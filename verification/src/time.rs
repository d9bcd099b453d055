//! Instants and spans of time, in whole nanoseconds.
use vstd::prelude::*;

use crate::arithmetic::{BILLION, LONGEST};
use crate::binary64::{number, Binary64};

verus! {

/// One nanosecond more than the last instant that a timestamp can hold.
pub open spec fn end_of_time() -> int {
    0x8000_0000_0000_0000int * 1_000_000_000
}

/// The encoding of 1e9.
pub const BILLION_BITS: u64 = 0x41cd_cd65_0000_0000;

/// An instant: whole seconds since the Unix epoch and nanoseconds after them.
#[derive(Clone, Copy, PartialEq, Eq, Structural, Debug)]
pub struct Timestamp {
    /// Whole seconds since the Unix epoch.
    pub seconds: i64,
    /// Nanoseconds after the whole seconds.
    pub nanos: u32,
}

/// A length of time.
#[derive(Clone, Copy, PartialEq, Eq, Structural, Debug)]
pub struct Span {
    /// Its nanoseconds.
    pub nanos: u128,
}

/// The timestamp of an instant that lies within the range of timestamps.
pub open spec fn timestamp_at(instant: int) -> Timestamp {
    Timestamp {
        seconds: (instant / 1_000_000_000) as i64,
        nanos: (instant % 1_000_000_000) as u32,
    }
}

/// The timestamp of an instant, or the last one where the instant lies beyond it.
fn clamped_timestamp(instant: i128) -> (r: Timestamp)
    requires
        instant >= -end_of_time(),
    ensures
        r == (if instant < end_of_time() {
            timestamp_at(instant as int)
        } else {
            timestamp_at(end_of_time() - 1)
        }),
{
    let last: i128 = 0x8000_0000_0000_0000 * 1_000_000_000 - 1;
    let held: i128 = if instant > last {
        last
    } else {
        instant
    };
    let shifted: u128 = (held + 0x8000_0000_0000_0000 * 1_000_000_000) as u128;
    let seconds: u128 = shifted / BILLION;
    let nanos: u128 = shifted % BILLION;
    assert(held as int / 1_000_000_000 == seconds - 0x8000_0000_0000_0000int);
    assert(held as int % 1_000_000_000 == nanos);
    Timestamp { seconds: (seconds as i128 - 0x8000_0000_0000_0000) as i64, nanos: nanos as u32 }
}

impl Timestamp {
    /// Nanoseconds since the Unix epoch.
    pub open spec fn instant(self) -> int {
        self.seconds * 1_000_000_000 + self.nanos
    }

    /// Nanoseconds since the Unix epoch, as a machine integer.
    pub fn nanoseconds(self) -> (r: i128)
        ensures
            r == self.instant(),
    {
        self.seconds as i128 * 1_000_000_000 + self.nanos as i128
    }

    /// Whether this instant is earlier than the other.
    pub open spec fn spec_before(self, other: Timestamp) -> bool {
        self.instant() < other.instant()
    }

    /// Whether this instant is earlier than the other.
    #[verifier::when_used_as_spec(spec_before)]
    pub fn before(self, other: Timestamp) -> (r: bool)
        ensures
            r == self.spec_before(other),
    {
        self.nanoseconds() < other.nanoseconds()
    }

    /// The span from an earlier instant, or nothing where that one is later.
    pub open spec fn spec_since(self, earlier: Timestamp) -> Option<Span> {
        if self.instant() >= earlier.instant() {
            Some(Span { nanos: (self.instant() - earlier.instant()) as u128 })
        } else {
            None
        }
    }

    /// The span from an earlier instant, or nothing where that one is later.
    #[verifier::when_used_as_spec(spec_since)]
    pub fn since(self, earlier: Timestamp) -> (r: Option<Span>)
        ensures
            r == self.spec_since(earlier),
    {
        let mine: i128 = self.nanoseconds();
        let theirs: i128 = earlier.nanoseconds();
        if mine >= theirs {
            Some(Span { nanos: (mine - theirs) as u128 })
        } else {
            None
        }
    }

    /// The instant a span later, or nothing where no timestamp can hold it.
    pub open spec fn spec_checked_add(self, span: Span) -> Option<Timestamp> {
        if self.instant() + span.nanos < end_of_time() {
            Some(timestamp_at(self.instant() + span.nanos))
        } else {
            None
        }
    }

    /// The instant a span later, or nothing where no timestamp can hold it.
    #[verifier::when_used_as_spec(spec_checked_add)]
    pub fn checked_add(self, span: Span) -> (r: Option<Timestamp>)
        ensures
            r == self.spec_checked_add(span),
    {
        let mine: i128 = self.nanoseconds();
        let last: i128 = 0x8000_0000_0000_0000 * 1_000_000_000 - 1;
        if mine > last || span.nanos > (last - mine) as u128 {
            None
        } else {
            Some(clamped_timestamp(mine + span.nanos as i128))
        }
    }

    /// The instant a span later, held at the last timestamp.
    pub open spec fn spec_later_by(self, span: Span) -> Timestamp {
        match self.spec_checked_add(span) {
            Some(later) => later,
            None => timestamp_at(end_of_time() - 1),
        }
    }

    /// The instant a span later, held at the last timestamp.
    #[verifier::when_used_as_spec(spec_later_by)]
    pub fn later_by(self, span: Span) -> (r: Timestamp)
        ensures
            r == self.spec_later_by(span),
    {
        match self.checked_add(span) {
            Some(later) => later,
            None => clamped_timestamp(0x8000_0000_0000_0000 * 1_000_000_000),
        }
    }
}

impl Span {
    /// A whole number of milliseconds.
    pub open spec fn spec_from_millis(millis: u64) -> Span {
        Span { nanos: (millis * 1_000_000) as u128 }
    }

    /// A whole number of milliseconds.
    #[verifier::when_used_as_spec(spec_from_millis)]
    pub fn from_millis(millis: u64) -> (r: Span)
        ensures
            r == Span::spec_from_millis(millis),
    {
        Span { nanos: millis as u128 * 1_000_000 }
    }

    /// The span in seconds: its whole seconds plus its nanoseconds over 1e9.
    pub open spec fn spec_as_seconds(self) -> Binary64 {
        Binary64::from_integer((self.nanos as int / 1_000_000_000) as u128).plus(
            Binary64::from_integer((self.nanos as int % 1_000_000_000) as u128).over(
                number(BILLION_BITS),
            ),
        )
    }

    /// The span in seconds: its whole seconds plus its nanoseconds over 1e9.
    #[verifier::when_used_as_spec(spec_as_seconds)]
    pub fn as_seconds(self) -> (r: Binary64)
        ensures
            r == self.spec_as_seconds(),
    {
        let whole: u128 = self.nanos / BILLION;
        let rest: u128 = self.nanos % BILLION;
        Binary64::from_integer(whole).plus(
            Binary64::from_integer(rest).over(number(BILLION_BITS)),
        )
    }

    /// The span of a number of seconds, to the nearest nanosecond: nothing of a
    /// negative number, and the longest span of one too large.
    pub open spec fn spec_from_seconds(seconds: Binary64) -> Span {
        Span { nanos: seconds.to_billionths(LONGEST) }
    }

    /// The span of a number of seconds, to the nearest nanosecond: nothing of a
    /// negative number, and the longest span of one too large.
    #[verifier::when_used_as_spec(spec_from_seconds)]
    pub fn from_seconds(seconds: Binary64) -> (r: Span)
        ensures
            r == Span::spec_from_seconds(seconds),
    {
        Span { nanos: seconds.to_billionths(LONGEST) }
    }

    /// The span multiplied by a number, to the nearest nanosecond.
    pub open spec fn spec_scaled(self, factor: Binary64) -> Span {
        Span::from_seconds(factor.times(self.as_seconds()))
    }

    /// The span multiplied by a number, to the nearest nanosecond.
    #[verifier::when_used_as_spec(spec_scaled)]
    pub fn scaled(self, factor: Binary64) -> (r: Span)
        ensures
            r == self.spec_scaled(factor),
    {
        Span::from_seconds(factor.times(self.as_seconds()))
    }
}

/// Adding the span since an earlier instant to that instant leads back.
pub proof fn law_since_undoes_later_by(earlier: Timestamp, later: Timestamp)
    requires
        earlier.instant() <= later.instant() < end_of_time(),
    ensures
        earlier.since(later) is Some ==> earlier.instant() == later.instant(),
        later.since(earlier) is Some,
        earlier.later_by(later.since(earlier).unwrap()).instant() == later.instant(),
{
}

/// The span between two instants is the nanoseconds from the one to the other, and there is
/// one exactly where the other is not earlier.
pub proof fn law_spans_lie_between_instants(earlier: Timestamp, later: Timestamp)
    ensures
        later.since(earlier) is Some <==> earlier.seconds * 1_000_000_000 + earlier.nanos
            <= later.seconds * 1_000_000_000 + later.nanos,
        later.since(earlier) is Some ==> later.since(earlier)->0.nanos == (later.seconds
            - earlier.seconds) * 1_000_000_000 + later.nanos - earlier.nanos,
        earlier.before(later) <==> earlier.seconds * 1_000_000_000 + earlier.nanos
            < later.seconds * 1_000_000_000 + later.nanos,
{
}

/// A later instant is later by the nanoseconds of the span, in whole seconds and less than a
/// second of nanoseconds; beyond the last timestamp there is none, or it is held there.
pub proof fn law_instants_move_by_spans(instant: Timestamp, span: Span)
    ensures
        ({
            let moved = instant.seconds * 1_000_000_000 + instant.nanos + span.nanos;
            let added = instant.checked_add(span);
            let held = instant.later_by(span);
            &&& added is Some <==> moved < 0x8000_0000_0000_0000int * 1_000_000_000
            &&& added is Some ==> {
                &&& added->0.seconds * 1_000_000_000 + added->0.nanos == moved
                &&& added->0.nanos < 1_000_000_000
                &&& held == added->0
            }
            &&& added is None ==> held.seconds == 0x7fff_ffff_ffff_ffff && held.nanos
                == 999_999_999
        }),
{
}

/// A span of milliseconds has a million nanoseconds for each. In seconds a span is its whole
/// seconds and the billionths beyond them; as many times that span is that many times those.
pub proof fn law_spans_are_counted_in_nanoseconds(
    millis: u64,
    whole: u128,
    rest: u128,
    span: Span,
    factor: Binary64,
)
    requires
        span.nanos == whole * 1_000_000_000 + rest,
        rest < 1_000_000_000,
    ensures
        Span::from_millis(millis).nanos == millis * 1_000_000,
        span.as_seconds() == Binary64::from_integer(whole).plus(
            Binary64::from_integer(rest).over(number(0x41cd_cd65_0000_0000)),
        ),
        span.scaled(factor).nanos == factor.times(span.as_seconds()).to_billionths(LONGEST),
{
}

} // verus!
