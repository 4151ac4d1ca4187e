//! Instants and spans of time, in nanoseconds.

use vstd::prelude::*;

verus! {

/// The last instant that a timestamp reaches by addition: the end of the last second that a
/// 64-bit signed count of seconds can name.
pub const MAX_TIMESTAMP_NANOS: i128 = 9_223_372_036_854_775_807_999_999_999;

/// A span of time.
#[derive(Clone, Copy, Debug, PartialEq, Eq, Structural)]
pub struct Duration {
    pub nanos: u128,
}

impl Duration {
    /// A span of whole seconds.
    pub fn from_secs(seconds: u64) -> (span: Self)
        ensures
            span.nanos == seconds * 1_000_000_000,
    {
        Self { nanos: seconds as u128 * 1_000_000_000 }
    }

    /// A span of whole milliseconds.
    pub fn from_millis(millis: u64) -> (span: Self)
        ensures
            span.nanos == millis * 1_000_000,
    {
        Self { nanos: millis as u128 * 1_000_000 }
    }

    /// The whole milliseconds of the span.
    pub fn as_millis(&self) -> (millis: u128)
        ensures
            millis == self.nanos / 1_000_000,
    {
        self.nanos / 1_000_000
    }

    /// Whether the span is empty.
    pub fn is_zero(&self) -> (zero: bool)
        ensures
            zero == (self.nanos == 0),
    {
        self.nanos == 0
    }
}

/// An instant, counted from the Unix epoch. Instants before the epoch are negative.
#[derive(Clone, Copy, Debug, PartialEq, Eq, Structural)]
pub struct Timestamp {
    pub nanos: i128,
}

/// Calls `std::time::SystemTime::now` and gives the distance between its result and the Unix
/// epoch, as whole seconds and the nanoseconds beyond them: `Ok` when the clock stands at or
/// after the epoch, `Err` when it stands before. It is claimed that the nanoseconds are less than
/// a second. Nothing is claimed of the seconds.
#[verifier::external_body]
fn clock() -> (reading: Result<(u64, u32), (u64, u32)>)
    ensures
        is_reading(reading),
{
    match std::time::SystemTime::now().duration_since(std::time::UNIX_EPOCH) {
        Ok(since) => Ok((since.as_secs(), since.subsec_nanos())),
        Err(before) => Err((before.duration().as_secs(), before.duration().subsec_nanos())),
    }
}

/// Whether a distance from the epoch is one that a clock shows: a part of a second follows the
/// whole seconds.
pub open spec fn is_reading(reading: Result<(u64, u32), (u64, u32)>) -> bool {
    match reading {
        Ok((_, nanos)) => nanos < 1_000_000_000,
        Err((_, nanos)) => nanos < 1_000_000_000,
    }
}

/// The nanoseconds from the epoch to the instant of a reading.
pub open spec fn reading_nanos(reading: Result<(u64, u32), (u64, u32)>) -> int {
    match reading {
        Ok((seconds, nanos)) => seconds * 1_000_000_000 + nanos,
        Err((seconds, nanos)) => -(seconds * 1_000_000_000 + nanos),
    }
}

impl Timestamp {
    /// What the system clock shows: the instant of some reading of it. Which one is not said.
    pub fn now() -> (instant: Self)
        ensures
            exists|reading: Result<(u64, u32), (u64, u32)>|
                is_reading(reading) && instant.nanos == #[trigger] reading_nanos(reading),
    {
        Self::from_reading(clock())
    }

    /// The instant at a distance from the epoch, in whole seconds and nanoseconds: after it for
    /// `Ok`, before it for `Err`.
    pub fn from_reading(reading: Result<(u64, u32), (u64, u32)>) -> (instant: Self)
        ensures
            instant.nanos == reading_nanos(reading),
    {
        match reading {
            Ok((seconds, nanos)) => {
                Self { nanos: seconds as i128 * 1_000_000_000 + nanos as i128 }
            },
            Err((seconds, nanos)) => {
                Self { nanos: -(seconds as i128 * 1_000_000_000 + nanos as i128) }
            },
        }
    }

    /// The Unix epoch.
    pub fn epoch() -> (instant: Self)
        ensures
            instant.nanos == 0,
    {
        Self { nanos: 0 }
    }

    /// The instant a number of milliseconds after the epoch.
    pub fn from_millis(millis: u64) -> (instant: Self)
        ensures
            instant.nanos == millis * 1_000_000,
    {
        Self { nanos: millis as i128 * 1_000_000 }
    }

    /// The instant `span` later, unless it lies beyond the last one.
    pub fn checked_add(self, span: Duration) -> (later: Option<Self>)
        ensures
            later == (if self.nanos + span.nanos <= MAX_TIMESTAMP_NANOS {
                Some(Timestamp { nanos: (self.nanos + span.nanos) as i128 })
            } else {
                None
            }),
    {
        if self.nanos > MAX_TIMESTAMP_NANOS {
            return None;
        }
        let room: u128 = Timestamp { nanos: MAX_TIMESTAMP_NANOS }.distance(self);
        if span.nanos > room {
            return None;
        }
        if self.nanos >= 0 {
            Some(Timestamp { nanos: self.nanos + span.nanos as i128 })
        } else {
            let below: u128 = (-(self.nanos + 1)) as u128 + 1;
            if span.nanos < below {
                let left: u128 = below - span.nanos;
                Some(Timestamp { nanos: -((left - 1) as i128) - 1 })
            } else {
                Some(Timestamp { nanos: (span.nanos - below) as i128 })
            }
        }
    }

    fn distance(self, earlier: Self) -> (nanos: u128)
        requires
            earlier.nanos <= self.nanos,
        ensures
            nanos == self.nanos - earlier.nanos,
    {
        if earlier.nanos >= 0 || self.nanos < 0 {
            (self.nanos - earlier.nanos) as u128
        } else {
            self.nanos as u128 + ((-(earlier.nanos + 1)) as u128 + 1)
        }
    }

    /// The span since an instant that is not later than this one.
    pub fn duration_since(self, earlier: Self) -> (span: Option<Duration>)
        ensures
            span == (if earlier.nanos <= self.nanos {
                Some(Duration { nanos: (self.nanos - earlier.nanos) as u128 })
            } else {
                None
            }),
    {
        if earlier.nanos <= self.nanos {
            Some(Duration { nanos: self.distance(earlier) })
        } else {
            None
        }
    }
}

/// A clock that stands some time after the epoch reads that time, and one that stands as long
/// before it reads the negative of that. A second has a thousand million nanoseconds, and the
/// longer the time the further the reading is from the epoch.
pub proof fn law_readings_run_from_the_epoch(
    seconds: u64,
    nanos: u32,
    later: u64,
    more: u32,
)
    requires
        nanos < 1_000_000_000,
        more < 1_000_000_000,
    ensures
        reading_nanos(Ok((0, nanos))) == nanos,
        seconds < u64::MAX ==> reading_nanos(Ok(((seconds + 1) as u64, nanos))) - reading_nanos(
            Ok((seconds, nanos)),
        ) == 1_000_000_000,
        reading_nanos(Err((seconds, nanos))) + reading_nanos(Ok((seconds, nanos))) == 0,
        seconds < later || (seconds == later && nanos < more) <==> reading_nanos(
            Ok((seconds, nanos)),
        ) < reading_nanos(Ok((later, more))),
{
}

/// Spans and instants agree on their units: a second is a thousand milliseconds, the milliseconds
/// that a span was made of are those that it has, and an instant that many milliseconds after the
/// epoch is that span away from it.
pub proof fn law_units_agree(
    count: u64,
    seconds: Duration,
    millis: Duration,
    whole: u128,
    instant: Timestamp,
    epoch: Timestamp,
    since: Option<Duration>,
)
    requires
        call_ensures(Duration::from_secs, (count,), seconds),
        call_ensures(Duration::from_millis, (count,), millis),
        call_ensures(Duration::as_millis, (&millis,), whole),
        call_ensures(Timestamp::from_millis, (count,), instant),
        call_ensures(Timestamp::epoch, (), epoch),
        call_ensures(Timestamp::duration_since, (instant, epoch), since),
    ensures
        seconds.nanos == 1_000 * millis.nanos,
        whole == count,
        since == Some(millis),
{
}

/// What is added to an instant is the span from the one to the other. An instant before another is
/// no span after it.
pub proof fn law_sums_are_taken_apart(
    instant: Timestamp,
    span: Duration,
    later: Option<Timestamp>,
    since: Option<Duration>,
    back: Option<Duration>,
)
    requires
        call_ensures(Timestamp::checked_add, (instant, span), later),
        later is Some,
        call_ensures(Timestamp::duration_since, (later->0, instant), since),
        call_ensures(Timestamp::duration_since, (instant, later->0), back),
    ensures
        since == Some(span),
        back is Some <==> span.nanos == 0,
{
}

} // verus!
