//! A low-pass filter over the speeds of the last few seconds.
use vstd::prelude::*;

use crate::binary64::{number, Binary64, HALF, ZERO};
use crate::rounding::EXACT_LIMIT;
use crate::time::{end_of_time, Span, Timestamp};

verus! {

/// Milliseconds after which a sample leaves the window: four seconds, and half a
/// second more against errors of time measurement.
pub const SPEED_OUTDATING: u64 = 4_500;

/// The least milliseconds between two samples that can be filtered together.
pub const MINIMAL_LOCATION_TIME_DIFFERENCE: u64 = 100;

/// The most samples that the window keeps.
pub const MAX_SAVED_SPEEDS: usize = 5;

/// 0.225388
pub const OUTER_OF_THREE: u64 = 0x3fcc_d983_9474_96ab;

/// 0.549223
pub const MIDDLE_OF_THREE: u64 = 0x3fe1_933c_1ce6_c094;

/// 0.146436
pub const OUTER_OF_FOUR: u64 = 0x3fc2_be6a_337a_80d0;

/// 0.353564
pub const INNER_OF_FOUR: u64 = 0x3fd6_a0ca_e642_bf98;

/// 0.10292
pub const OUTER_OF_FIVE: u64 = 0x3fba_58f7_121a_b4b7;

/// 0.242081
pub const INNER_OF_FIVE: u64 = 0x3fce_fc82_9cfd_d228;

/// 0.309998
pub const MIDDLE_OF_FIVE: u64 = 0x3fd3_d701_d9f4_d37c;

/// A speed and when it was observed.
#[derive(Clone, Copy, PartialEq, Eq, Structural, Debug)]
pub struct SpeedSample {
    /// Metres per second.
    pub speed_mps: Binary64,
    /// When it was observed.
    pub timestamp: Timestamp,
}

/// The weights of a window of two to five samples.
pub open spec fn weights(size: nat) -> Option<Seq<Binary64>> {
    if size == 2 {
        Some(seq![number(HALF), number(HALF)])
    } else if size == 3 {
        Some(
            seq![
                number(OUTER_OF_THREE),
                number(MIDDLE_OF_THREE),
                number(OUTER_OF_THREE),
            ],
        )
    } else if size == 4 {
        Some(
            seq![
                number(OUTER_OF_FOUR),
                number(INNER_OF_FOUR),
                number(INNER_OF_FOUR),
                number(OUTER_OF_FOUR),
            ],
        )
    } else if size == 5 {
        Some(
            seq![
                number(OUTER_OF_FIVE),
                number(INNER_OF_FIVE),
                number(MIDDLE_OF_FIVE),
                number(INNER_OF_FIVE),
                number(OUTER_OF_FIVE),
            ],
        )
    } else {
        None
    }
}

/// Whether two samples this far apart can be filtered together.
pub open spec fn is_suitable(interval: Span) -> bool {
    MINIMAL_LOCATION_TIME_DIFFERENCE * 1_000_000 <= interval.nanos <= SPEED_OUTDATING * 1_000_000
}

/// Whether a sample has left the window at an instant.
pub open spec fn outdated(sample: SpeedSample, now: Timestamp) -> bool {
    match sample.timestamp.checked_add(Span::from_millis(SPEED_OUTDATING)) {
        Some(expiry) => expiry.before(now),
        None => true,
    }
}

/// The samples without those at the front that are too many or too old.
pub open spec fn trimmed(history: Seq<SpeedSample>, now: Timestamp) -> Seq<SpeedSample>
    decreases history.len(),
{
    if history.len() > 0 && (history.len() > MAX_SAVED_SPEEDS || outdated(history[0], now)) {
        trimmed(history.subrange(1, history.len() as int), now)
    } else {
        history
    }
}

/// The window at an instant: empty where the instant lies before the last sample.
pub open spec fn cleaned(history: Seq<SpeedSample>, now: Timestamp) -> Seq<SpeedSample> {
    if history.len() > 0 && now.before(history.last().timestamp) {
        Seq::empty()
    } else {
        trimmed(history, now)
    }
}

/// The number of one-second intervals between two samples.
pub open spec fn intervals(from: SpeedSample, to: SpeedSample) -> u64 {
    match to.timestamp.since(from.timestamp) {
        Some(gap) => gap.as_seconds().to_integer(),
        None => 0,
    }
}

/// The sample after `i` of `n` equal intervals between two samples.
pub open spec fn interpolated(from: SpeedSample, to: SpeedSample, i: u64, n: u64) -> SpeedSample {
    let t = Binary64::from_integer(i as u128).over(Binary64::from_integer(n as u128));
    let gap = Span { nanos: (to.timestamp.instant() - from.timestamp.instant()) as u128 };
    SpeedSample {
        speed_mps: from.speed_mps.plus(t.times(to.speed_mps.minus(from.speed_mps))),
        timestamp: from.timestamp.later_by(gap.scaled(t)),
    }
}

/// The samples that fill the gap between two samples.
pub open spec fn gap_samples(from: SpeedSample, to: SpeedSample) -> Seq<SpeedSample> {
    let n = intervals(from, to);
    Seq::new(
        (if n > 1 { n - 1 } else { 0 }) as nat,
        |k: int| interpolated(from, to, (k + 1) as u64, n),
    )
}

/// The last samples, no more than are kept.
pub open spec fn capped(history: Seq<SpeedSample>) -> Seq<SpeedSample> {
    if history.len() > MAX_SAVED_SPEEDS {
        history.subrange(history.len() - MAX_SAVED_SPEEDS, history.len() as int)
    } else {
        history
    }
}

/// The window after a sample was appended: the samples before it, those that fill the
/// gap to it, and itself, without those at the front that are too many.
pub open spec fn appended(history: Seq<SpeedSample>, sample: SpeedSample) -> Seq<SpeedSample> {
    let window = cleaned(history, sample.timestamp);
    let filled = if window.len() > 0 {
        window + gap_samples(window.last(), sample)
    } else {
        window
    };
    capped(filled.push(sample))
}

/// The sum of the first `n` samples, each times its weight.
pub open spec fn weighted_sum(
    samples: Seq<SpeedSample>,
    factors: Seq<Binary64>,
    n: nat,
) -> Binary64
    decreases n,
{
    if n == 0 {
        number(ZERO)
    } else {
        weighted_sum(samples, factors, (n - 1) as nat).plus(
            samples[n - 1].speed_mps.times(factors[n - 1]),
        )
    }
}

/// The filtered speed of a window.
pub open spec fn filtered(window: Seq<SpeedSample>) -> Option<Binary64> {
    match weights(window.len()) {
        Some(factors) => Some(weighted_sum(window, factors, window.len())),
        None => None,
    }
}

/// The weights of a window of two to five samples, and none of any other.
pub fn low_pass_filter_weights(size: usize) -> (r: Option<Vec<Binary64>>)
    ensures
        (r is Some) == (weights(size as nat) is Some),
        r is Some ==> r->0@ == weights(size as nat)->0,
{
    if size == 2 {
        Some(vec![number(HALF), number(HALF)])
    } else if size == 3 {
        Some(
            vec![
                number(OUTER_OF_THREE),
                number(MIDDLE_OF_THREE),
                number(OUTER_OF_THREE),
            ],
        )
    } else if size == 4 {
        Some(
            vec![
                number(OUTER_OF_FOUR),
                number(INNER_OF_FOUR),
                number(INNER_OF_FOUR),
                number(OUTER_OF_FOUR),
            ],
        )
    } else if size == 5 {
        Some(
            vec![
                number(OUTER_OF_FIVE),
                number(INNER_OF_FIVE),
                number(MIDDLE_OF_FIVE),
                number(INNER_OF_FIVE),
                number(OUTER_OF_FIVE),
            ],
        )
    } else {
        None
    }
}

/// Whether two samples this far apart can be filtered together.
pub fn is_interval_suitable(interval: Span) -> (r: bool)
    ensures
        r == is_suitable(interval),
{
    let least: Span = Span::from_millis(MINIMAL_LOCATION_TIME_DIFFERENCE);
    let most: Span = Span::from_millis(SPEED_OUTDATING);
    interval.nanos >= least.nanos && interval.nanos <= most.nanos
}

/// Appends a sample to the window, after the samples that fill the gap to it. Samples
/// beyond the most that are kept leave the window at the front.
pub fn append_speed(history: &mut Vec<SpeedSample>, speed_mps: Binary64, timestamp: Timestamp)
    ensures
        final(history)@ == appended(old(history)@, SpeedSample { speed_mps, timestamp }),
{
    clean_up_speed_history(history, timestamp);
    let sample: SpeedSample = SpeedSample { speed_mps, timestamp };
    if history.len() > 0 {
        let last: SpeedSample = history[history.len() - 1];
        fill_gap(history, last, sample);
    }
    history.push(sample);
    let ghost longer = history@;
    while history.len() > MAX_SAVED_SPEEDS
        invariant
            1 <= history.len() <= longer.len(),
            longer.len() > MAX_SAVED_SPEEDS ==> history.len() >= MAX_SAVED_SPEEDS,
            longer.len() <= MAX_SAVED_SPEEDS ==> history.len() == longer.len(),
            history@ == longer.subrange(longer.len() - history.len(), longer.len() as int),
        decreases history.len(),
    {
        let ghost whole = history@;
        history.remove(0);
        assert(history@ =~= whole.subrange(1, whole.len() as int));
        assert(history@ =~= longer.subrange(longer.len() - history.len(), longer.len() as int));
    }
    assert(history@ =~= capped(longer));
}

/// The filtered speed at an instant; none of a window of fewer than two samples.
pub fn filtered_speed(history: &mut Vec<SpeedSample>, timestamp: Timestamp) -> (r: Option<Binary64>)
    ensures
        final(history)@ == cleaned(old(history)@, timestamp),
        r == filtered(cleaned(old(history)@, timestamp)),
{
    clean_up_speed_history(history, timestamp);
    let factors: Vec<Binary64> = match low_pass_filter_weights(history.len()) {
        Some(factors) => factors,
        None => return None,
    };
    let mut sum: Binary64 = number(ZERO);
    let mut i: usize = 0;
    while i < history.len()
        invariant
            i <= history.len(),
            factors.len() == history.len(),
            sum == weighted_sum(history@, factors@, i as nat),
        decreases history.len() - i,
    {
        sum = sum.plus(history[i].speed_mps.times(factors[i]));
        i = i + 1;
    }
    Some(sum)
}

fn clean_up_speed_history(history: &mut Vec<SpeedSample>, timestamp: Timestamp)
    ensures
        final(history)@ == cleaned(old(history)@, timestamp),
{
    if history.len() > 0 && timestamp.before(history[history.len() - 1].timestamp) {
        history.clear();
        return;
    }
    let ghost start = history@;
    while history.len() > 0
        invariant_except_break
            trimmed(start, timestamp) == trimmed(history@, timestamp),
        ensures
            history@ == trimmed(start, timestamp),
        decreases history.len(),
    {
        let front: SpeedSample = history[0];
        let too_many: bool = history.len() > MAX_SAVED_SPEEDS;
        let too_old: bool = match front.timestamp.checked_add(Span::from_millis(SPEED_OUTDATING)) {
            Some(expiry) => expiry.before(timestamp),
            None => true,
        };
        if !too_many && !too_old {
            break;
        }
        let ghost whole = history@;
        history.remove(0);
        assert(history@ =~= whole.subrange(1, whole.len() as int));
    }
}

fn fill_gap(history: &mut Vec<SpeedSample>, from: SpeedSample, to: SpeedSample)
    ensures
        final(history)@ == old(history)@ + gap_samples(from, to),
{
    let gap: Span = match to.timestamp.since(from.timestamp) {
        Some(gap) => gap,
        None => return,
    };
    let n: u64 = gap.as_seconds().to_integer();
    let ghost before = history@;
    let ghost fill = gap_samples(from, to);
    let mut i: u64 = 1;
    while i < n
        invariant
            1 <= i,
            i <= n || n <= 1 && i == 1,
            n == intervals(from, to),
            gap.nanos == to.timestamp.instant() - from.timestamp.instant(),
            fill == gap_samples(from, to),
            history@ == before + fill.subrange(0, i - 1),
        decreases n - i,
    {
        assert(i < EXACT_LIMIT && n < EXACT_LIMIT);
        let t: Binary64 = Binary64::from_integer(i as u128).over(Binary64::from_integer(n as u128));
        let sample: SpeedSample = SpeedSample {
            speed_mps: from.speed_mps.plus(t.times(to.speed_mps.minus(from.speed_mps))),
            timestamp: from.timestamp.later_by(gap.scaled(t)),
        };
        assert(sample == fill[i - 1]);
        history.push(sample);
        assert(history@ =~= before + fill.subrange(0, i as int));
        i = i + 1;
    }
    assert(fill.subrange(0, i - 1) =~= fill);
}

/// A cleaned window is a tail of the samples, holds at most the most samples that
/// are kept, and none of it is outdated at the front.
pub proof fn law_window_is_bounded(history: Seq<SpeedSample>, now: Timestamp)
    ensures
        cleaned(history, now).len() <= MAX_SAVED_SPEEDS,
        cleaned(history, now).len() <= history.len(),
        cleaned(history, now) == history.subrange(
            history.len() - cleaned(history, now).len(),
            history.len() as int,
        ),
        cleaned(history, now).len() > 0 ==> !outdated(cleaned(history, now)[0], now),
{
    lemma_trimmed_is_tail(history, now);
    assert(history.subrange(history.len() as int, history.len() as int) =~= Seq::empty());
}

proof fn lemma_trimmed_is_tail(history: Seq<SpeedSample>, now: Timestamp)
    ensures
        trimmed(history, now).len() <= history.len(),
        trimmed(history, now).len() <= MAX_SAVED_SPEEDS,
        trimmed(history, now) == history.subrange(
            history.len() - trimmed(history, now).len(),
            history.len() as int,
        ),
        trimmed(history, now).len() > 0 ==> !outdated(trimmed(history, now)[0], now),
    decreases history.len(),
{
    if history.len() > 0 && (history.len() > MAX_SAVED_SPEEDS || outdated(history[0], now)) {
        let rest = history.subrange(1, history.len() as int);
        lemma_trimmed_is_tail(rest, now);
        let n = trimmed(rest, now).len();
        assert(rest.subrange(rest.len() - n, rest.len() as int) =~= history.subrange(
            history.len() - n,
            history.len() as int,
        ));
    } else {
        assert(history.subrange(0, history.len() as int) =~= history);
    }
}

/// A sample that lies before the last one starts the window anew.
pub proof fn law_late_sample_clears_the_window(history: Seq<SpeedSample>, sample: SpeedSample)
    requires
        history.len() > 0,
        sample.timestamp.before(history.last().timestamp),
    ensures
        appended(history, sample) == seq![sample],
{
    assert(capped(Seq::<SpeedSample>::empty().push(sample)) =~= seq![sample]);
}

/// After a sample was appended the window holds at most the most samples that are kept.
pub proof fn law_appended_window_is_capped(history: Seq<SpeedSample>, sample: SpeedSample)
    ensures
        appended(history, sample).len() <= MAX_SAVED_SPEEDS,
{
}

/// An appended sample is the last of the window.
pub proof fn law_appended_sample_is_last(history: Seq<SpeedSample>, sample: SpeedSample)
    ensures
        appended(history, sample).len() > 0,
        appended(history, sample).last() == sample,
{
}

/// Fewer than two samples have no filtered speed; a cleaned window of two or more
/// has one.
pub proof fn law_filtered_needs_two_samples(history: Seq<SpeedSample>, now: Timestamp)
    ensures
        filtered(cleaned(history, now)) is Some <==> cleaned(history, now).len() >= 2,
{
    law_window_is_bounded(history, now);
}

/// A window of two samples weighs them alike. The weights of three to five samples are the
/// same from either end and grow towards the middle; they are those of a low-pass filter.
pub proof fn law_weights_are_those_of_a_low_pass_filter(size: nat)
    ensures
        weights(size) is Some <==> 2 <= size <= 5,
        weights(2) == Some(
            seq![number(0x3fe0_0000_0000_0000), number(0x3fe0_0000_0000_0000)],
        ),
        weights(3) == Some(
            seq![
                number(0x3fcc_d983_9474_96ab),
                number(0x3fe1_933c_1ce6_c094),
                number(0x3fcc_d983_9474_96ab),
            ],
        ),
        weights(4) == Some(
            seq![
                number(0x3fc2_be6a_337a_80d0),
                number(0x3fd6_a0ca_e642_bf98),
                number(0x3fd6_a0ca_e642_bf98),
                number(0x3fc2_be6a_337a_80d0),
            ],
        ),
        weights(5) == Some(
            seq![
                number(0x3fba_58f7_121a_b4b7),
                number(0x3fce_fc82_9cfd_d228),
                number(0x3fd3_d701_d9f4_d37c),
                number(0x3fce_fc82_9cfd_d228),
                number(0x3fba_58f7_121a_b4b7),
            ],
        ),
{
}

/// Samples can be filtered together from a tenth of a second up to four and a half seconds
/// apart. A sample is outdated after four and a half seconds, or where no timestamp can hold
/// that instant.
pub proof fn law_samples_last_for_four_and_a_half_seconds(
    sample: SpeedSample,
    now: Timestamp,
    interval: Span,
)
    ensures
        is_suitable(interval) <==> 100_000_000 <= interval.nanos <= 4_500_000_000,
        outdated(sample, now) <==> {
            ||| sample.timestamp.instant() + 4_500_000_000 < now.instant()
            ||| sample.timestamp.instant() + 4_500_000_000 >= end_of_time()
        },
{
}

/// The window keeps all it can: where it has left samples out though it has room for them,
/// the last of those was outdated. A window at an instant before its last sample is empty.
pub proof fn law_window_keeps_what_it_can(history: Seq<SpeedSample>, now: Timestamp)
    ensures
        ({
            let window = cleaned(history, now);
            let is_late = history.len() > 0 && now.instant() < history.last().timestamp.instant();
            &&& is_late ==> window.len() == 0
            &&& !is_late && window.len() < history.len() && window.len() < 5 ==> outdated(
                history[history.len() - window.len() - 1],
                now,
            )
        }),
{
    lemma_trimmed_keeps_what_it_can(history, now);
}

proof fn lemma_trimmed_keeps_what_it_can(history: Seq<SpeedSample>, now: Timestamp)
    ensures
        trimmed(history, now).len() <= history.len(),
        trimmed(history, now).len() < history.len() && trimmed(history, now).len()
            < MAX_SAVED_SPEEDS ==> outdated(
            history[history.len() - trimmed(history, now).len() - 1],
            now,
        ),
    decreases history.len(),
{
    if history.len() > 0 && (history.len() > MAX_SAVED_SPEEDS || outdated(history[0], now)) {
        let rest = history.subrange(1, history.len() as int);
        lemma_trimmed_keeps_what_it_can(rest, now);
        let n = trimmed(rest, now).len();
        if n < rest.len() {
            assert(rest[rest.len() - n - 1] == history[history.len() - n - 1]);
        }
    }
}

/// A gap of `n` whole seconds between two samples is filled with a sample at the end of each
/// but the last of `n` equal parts, of the speed and the instant on the straight line there.
pub proof fn law_gaps_are_filled_evenly(from: SpeedSample, to: SpeedSample, i: int)
    requires
        from.timestamp.instant() <= to.timestamp.instant(),
    ensures
        ({
            let gap = Span { nanos: (to.timestamp.instant() - from.timestamp.instant()) as u128 };
            let n = gap.as_seconds().to_integer();
            let fill = gap_samples(from, to);
            let share = Binary64::from_integer(i as u128).over(
                Binary64::from_integer(n as u128),
            );
            &&& n <= 1 ==> fill.len() == 0
            &&& n > 1 ==> fill.len() == n - 1
            &&& 0 < i < n ==> {
                &&& fill[i - 1].speed_mps == from.speed_mps.plus(
                    share.times(to.speed_mps.minus(from.speed_mps)),
                )
                &&& fill[i - 1].timestamp == from.timestamp.later_by(
                    Span::from_seconds(share.times(gap.as_seconds())),
                )
            }
        }),
{
}

/// A sample is appended behind what is left of the window and what fills the gap from its last
/// sample; of those the last five stay.
pub proof fn law_samples_are_appended_behind_the_window(
    history: Seq<SpeedSample>,
    sample: SpeedSample,
)
    ensures
        ({
            let window = cleaned(history, sample.timestamp);
            let longer = if window.len() > 0 {
                (window + gap_samples(window.last(), sample)).push(sample)
            } else {
                seq![sample]
            };
            let after = appended(history, sample);
            &&& longer.len() <= 5 ==> after == longer
            &&& longer.len() > 5 ==> after == longer.subrange(
                longer.len() - 5,
                longer.len() as int,
            )
        }),
{
    assert(Seq::<SpeedSample>::empty().push(sample) =~= seq![sample]);
    let window = cleaned(history, sample.timestamp);
    if window.len() == 0 {
        assert(window =~= Seq::<SpeedSample>::empty());
    }
}

/// The filtered speed is the sum of the window's speeds, each times its weight.
pub proof fn law_speeds_are_weighed(window: Seq<SpeedSample>, factors: Seq<Binary64>, n: nat)
    requires
        weights(window.len()) == Some(factors),
    ensures
        filtered(window) == Some(weighted_sum(window, factors, window.len())),
        weighted_sum(window, factors, 0) == number(0),
        weighted_sum(window, factors, n + 1) == weighted_sum(window, factors, n).plus(
            window[n as int].speed_mps.times(factors[n as int]),
        ),
{
}

} // verus!
