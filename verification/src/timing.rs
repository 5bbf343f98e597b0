//! Points in time and spans between them, in whole nanoseconds.
use vstd::prelude::*;

verus! {

pub const NANOS_PER_SEC: u128 = 1_000_000_000;

/// Largest span: `u64::MAX` seconds and 999,999,999 nanoseconds.
pub const MAX_DURATION_NANOS: u128 = 18_446_744_073_709_551_615_999_999_999;

/// Largest monotonic reading: `i64::MAX` seconds and 999,999,999 nanoseconds.
pub const MAX_INSTANT_NANOS: u128 = 9_223_372_036_854_775_807_999_999_999;

/// Latest wall-clock reading: `i64::MAX` seconds and 999,999,999 nanoseconds
/// after the Unix epoch.
pub const MAX_SYSTEM_NANOS: i128 = 9_223_372_036_854_775_807_999_999_999;

/// A span of time.
#[derive(Debug, Clone, Copy, PartialEq, Eq, Structural, PartialOrd, Ord, Hash)]
pub struct Duration {
    pub nanos: u128,
}

/// A reading of the monotonic clock, counted from that clock's origin.
#[derive(Debug, Clone, Copy, PartialEq, Eq, Structural, PartialOrd, Ord, Hash)]
pub struct Instant {
    pub nanos: u128,
}

/// A reading of the wall clock, counted from the Unix epoch.
#[derive(Debug, Clone, Copy, PartialEq, Eq, Structural, PartialOrd, Ord, Hash)]
pub struct SystemTime {
    pub nanos: i128,
}

/// One moment, read from both clocks.
#[derive(Debug, Clone, Copy, PartialEq, Eq, Structural)]
pub struct ClientTimestamp {
    pub wall: SystemTime,
    pub mono: Instant,
}

impl Duration {
    pub fn zero() -> (result: Duration)
        ensures
            result.nanos == 0,
    {
        Duration { nanos: 0 }
    }

    pub fn max_value() -> (result: Duration)
        ensures
            result.nanos == MAX_DURATION_NANOS,
    {
        Duration { nanos: MAX_DURATION_NANOS }
    }

    pub fn from_nanos(nanos: u64) -> (result: Duration)
        ensures
            result.nanos == nanos,
    {
        Duration { nanos: nanos as u128 }
    }

    pub fn from_micros(micros: u64) -> (result: Duration)
        ensures
            result.nanos == micros * 1_000,
    {
        Duration { nanos: micros as u128 * 1_000 }
    }

    pub fn from_millis(millis: u64) -> (result: Duration)
        ensures
            result.nanos == millis * 1_000_000,
    {
        Duration { nanos: millis as u128 * 1_000_000 }
    }

    pub fn from_secs(secs: u64) -> (result: Duration)
        ensures
            result.nanos == secs * NANOS_PER_SEC,
    {
        Duration { nanos: secs as u128 * NANOS_PER_SEC }
    }
}

impl Instant {
    pub open spec fn spec_checked_add(self, span: Duration) -> Option<Instant> {
        if self.nanos + span.nanos <= MAX_INSTANT_NANOS {
            Some(Instant { nanos: (self.nanos + span.nanos) as u128 })
        } else {
            None
        }
    }

    /// The instant `span` later, unless the clock cannot represent it.
    #[verifier::when_used_as_spec(spec_checked_add)]
    pub fn checked_add(self, span: Duration) -> (result: Option<Instant>)
        ensures
            result == self.spec_checked_add(span),
    {
        if self.nanos <= MAX_INSTANT_NANOS && span.nanos <= MAX_INSTANT_NANOS - self.nanos {
            Some(Instant { nanos: self.nanos + span.nanos })
        } else {
            None
        }
    }

    pub open spec fn spec_checked_sub(self, span: Duration) -> Option<Instant> {
        if span.nanos <= self.nanos {
            Some(Instant { nanos: (self.nanos - span.nanos) as u128 })
        } else {
            None
        }
    }

    /// The instant `span` earlier, unless that lies before the clock's origin.
    #[verifier::when_used_as_spec(spec_checked_sub)]
    pub fn checked_sub(self, span: Duration) -> (result: Option<Instant>)
        ensures
            result == self.spec_checked_sub(span),
    {
        if span.nanos <= self.nanos {
            Some(Instant { nanos: self.nanos - span.nanos })
        } else {
            None
        }
    }

    pub open spec fn spec_saturating_duration_since(self, earlier: Instant) -> Duration {
        if earlier.nanos <= self.nanos {
            Duration { nanos: (self.nanos - earlier.nanos) as u128 }
        } else {
            Duration { nanos: 0 }
        }
    }

    /// The span from `earlier` to `self`, or zero where `earlier` is later.
    #[verifier::when_used_as_spec(spec_saturating_duration_since)]
    pub fn saturating_duration_since(self, earlier: Instant) -> (result: Duration)
        ensures
            result == self.spec_saturating_duration_since(earlier),
    {
        if earlier.nanos <= self.nanos {
            Duration { nanos: self.nanos - earlier.nanos }
        } else {
            Duration { nanos: 0 }
        }
    }
}

impl SystemTime {
    pub fn unix_epoch() -> (result: SystemTime)
        ensures
            result.nanos == 0,
    {
        SystemTime { nanos: 0 }
    }

    /// The wall-clock reading `span` later, unless the clock cannot represent it.
    pub fn checked_add(self, span: Duration) -> (result: Option<SystemTime>)
        ensures
            result == (if self.nanos + span.nanos <= MAX_SYSTEM_NANOS {
                Some(SystemTime { nanos: (self.nanos + span.nanos) as i128 })
            } else {
                None
            }),
    {
        match self.nanos.checked_add_unsigned(span.nanos) {
            Some(nanos) if nanos <= MAX_SYSTEM_NANOS => Some(SystemTime { nanos }),
            _ => None,
        }
    }
}

/// The earlier of two optional instants; an absent one does not count.
pub open spec fn earlier(first: Option<Instant>, second: Option<Instant>) -> Option<Instant> {
    match (first, second) {
        (Some(a), Some(b)) => Some(
            if b.nanos < a.nanos {
                b
            } else {
                a
            },
        ),
        (Some(a), None) => Some(a),
        (None, b) => b,
    }
}

/// The earlier of two optional instants.
pub fn earlier_instant(first: Option<Instant>, second: Option<Instant>) -> (result: Option<Instant>)
    ensures
        result == earlier(first, second),
{
    match (first, second) {
        (Some(a), Some(b)) => {
            if b.nanos < a.nanos {
                Some(b)
            } else {
                Some(a)
            }
        },
        (Some(a), None) => Some(a),
        (None, b) => b,
    }
}

/// Going a span ahead and the same span back leads to where one was, and the
/// span between the two is that span. It fails exactly where the clock cannot
/// represent the sum, or where it would lead before the clock's origin.
pub proof fn law_spans_add_and_subtract(at: Instant, span: Duration)
    ensures
        at.spec_checked_add(span) is Some <==> at.nanos + span.nanos <= MAX_INSTANT_NANOS,
        at.spec_checked_sub(span) is Some <==> span.nanos <= at.nanos,
        at.spec_checked_add(span) matches Some(later) ==> later.spec_checked_sub(span) == Some(at)
            && later.spec_saturating_duration_since(at) == span && (span.nanos > 0 ==> later.nanos
            > at.nanos),
        at.spec_checked_sub(span) matches Some(before) ==> at.spec_saturating_duration_since(before)
            == span && before.nanos <= at.nanos,
{
}

/// The span since an instant is none where that is not past, and grows with
/// time by as much as passes.
pub proof fn law_spans_since_an_instant(at: Instant, start: Instant, later: Instant)
    requires
        at.nanos <= later.nanos,
    ensures
        at.nanos <= start.nanos ==> at.spec_saturating_duration_since(start).nanos == 0,
        start.nanos <= at.nanos ==> later.spec_saturating_duration_since(start).nanos
            == at.spec_saturating_duration_since(start).nanos + (later.nanos - at.nanos),
{
}

/// The earlier of two instants is one of them and not after the other, and
/// there is none only where neither is there.
pub proof fn law_earlier_is_not_after_either(first: Option<Instant>, second: Option<Instant>)
    ensures
        earlier(first, second) is None <==> first is None && second is None,
        earlier(first, second) == first || earlier(first, second) == second,
        first is Some ==> earlier(first, second) is Some && earlier(first, second)->0.nanos
            <= first->0.nanos,
        second is Some ==> earlier(first, second) is Some && earlier(first, second)->0.nanos
            <= second->0.nanos,
{
}

} // verus!
