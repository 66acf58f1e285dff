//! Spans of time, and the system clock.

use vstd::prelude::*;

verus! {

/// A span of time.
#[derive(Debug, Clone, Copy, PartialEq, Eq, PartialOrd, Ord, Structural)]
pub struct Duration {
    nanos: u128,
}

impl Duration {
    /// The span in nanoseconds.
    pub closed spec fn spec_nanos(self) -> nat {
        self.nanos as nat
    }

    /// The span in whole milliseconds.
    pub open spec fn millis(self) -> nat {
        self.spec_nanos() / 1_000_000
    }

    /// No time at all.
    pub fn zero() -> (duration: Duration)
        ensures
            duration.spec_nanos() == 0,
    {
        Duration { nanos: 0 }
    }

    /// So many seconds, and nanoseconds on top of them.
    pub fn new(secs: u64, nanos: u32) -> (duration: Duration)
        ensures
            duration.spec_nanos() == secs * 1_000_000_000 + nanos,
    {
        Duration { nanos: secs as u128 * 1_000_000_000 + nanos as u128 }
    }

    pub fn from_nanos(nanos: u64) -> (duration: Duration)
        ensures
            duration.spec_nanos() == nanos,
    {
        Duration { nanos: nanos as u128 }
    }

    pub fn from_millis(millis: u64) -> (duration: Duration)
        ensures
            duration.spec_nanos() == millis * 1_000_000,
            duration.millis() == millis,
    {
        Duration { nanos: millis as u128 * 1_000_000 }
    }

    pub fn from_secs(secs: u64) -> (duration: Duration)
        ensures
            duration.spec_nanos() == secs * 1_000_000_000,
            duration.millis() == secs * 1000,
    {
        Duration { nanos: secs as u128 * 1_000_000_000 }
    }

    pub fn is_zero(&self) -> (zero: bool)
        ensures
            zero == (self.spec_nanos() == 0),
    {
        self.nanos == 0
    }

    /// The span in nanoseconds.
    pub fn as_nanos(&self) -> (nanos: u128)
        ensures
            nanos == self.spec_nanos(),
    {
        self.nanos
    }

    /// The span in whole milliseconds.
    pub fn as_millis(&self) -> (millis: u128)
        ensures
            millis == self.millis(),
            millis <= u128::MAX / 1_000_000,
    {
        self.nanos / 1_000_000
    }

    /// Whether this span is longer than another.
    pub fn exceeds(&self, other: &Duration) -> (longer: bool)
        ensures
            longer == (self.spec_nanos() > other.spec_nanos()),
    {
        self.nanos > other.nanos
    }

    /// The shorter of two spans.
    pub fn min(self, other: Duration) -> (shorter: Duration)
        ensures
            shorter == if other.spec_nanos() < self.spec_nanos() {
                other
            } else {
                self
            },
    {
        if other.nanos < self.nanos {
            other
        } else {
            self
        }
    }
}

/// `std::time::SystemTime::duration_since` gives the time from the start of 1970 to now, or an error
/// where the clock is set before that, which stands for no time. The whole seconds and the
/// nanoseconds behind them are what `as_secs` and `subsec_nanos` give.
#[verifier::external_body]
fn since_unix_epoch() -> (now: (u64, u32))
    ensures
        now.1 < 1_000_000_000,
{
    let now = std::time::SystemTime::now().duration_since(std::time::UNIX_EPOCH).unwrap_or_default();
    (now.as_secs(), now.subsec_nanos())
}

/// The largest value of 64 bits that is not above `value`.
pub open spec fn clamp_u64(value: nat) -> u64 {
    if value <= u64::MAX {
        value as u64
    } else {
        u64::MAX
    }
}

fn saturate(value: u128) -> (clamped: u64)
    ensures
        clamped == clamp_u64(value as nat),
{
    if value <= u64::MAX as u128 {
        value as u64
    } else {
        u64::MAX
    }
}

/// Whole milliseconds, saturating.
pub fn millis_since_epoch(secs: u64, nanos: u32) -> (millis: u64)
    ensures
        millis == clamp_u64((secs * 1000 + nanos / 1_000_000) as nat),
{
    saturate(secs as u128 * 1000 + (nanos / 1_000_000) as u128)
}

/// Nanoseconds, saturating.
pub fn nanos_since_epoch(secs: u64, nanos: u32) -> (total: u64)
    ensures
        total == clamp_u64((secs * 1_000_000_000 + nanos) as nat),
{
    saturate(secs as u128 * 1_000_000_000 + nanos as u128)
}

/// Whether these are the seconds and nanoseconds that the clock gave when it was read.
pub closed spec fn is_what_the_clock_gave(secs: u64, nanos: u32) -> bool {
    call_ensures(since_unix_epoch, (), (secs, nanos))
}

/// Readings of the system clock.
#[derive(Debug, Clone, Copy, PartialEq, Eq, Structural)]
pub struct Clock {
    /// Milliseconds since the start of 1970.
    pub unix_millis: u64,
    /// Nanoseconds since the start of 1970.
    pub unix_nanos: u64,
    /// Nanoseconds behind the current second.
    pub subsec_nanos: u32,
}

impl Clock {
    /// Reads the clock.
    pub fn now() -> (clock: Clock)
        ensures
            clock.subsec_nanos < 1_000_000_000,
            exists|secs: u64|
                clock.unix_millis == clamp_u64(
                    (secs * 1000 + clock.subsec_nanos / 1_000_000) as nat,
                ) && clock.unix_nanos == #[trigger] clamp_u64(
                    (secs * 1_000_000_000 + clock.subsec_nanos) as nat,
                ) && is_what_the_clock_gave(secs, clock.subsec_nanos),
    {
        let (secs, nanos) = since_unix_epoch();
        let clock = Clock {
            unix_millis: millis_since_epoch(secs, nanos),
            unix_nanos: nanos_since_epoch(secs, nanos),
            subsec_nanos: nanos,
        };
        assert(clock.unix_nanos == clamp_u64((secs * 1_000_000_000 + nanos) as nat));
        clock
    }
}

/// Milliseconds since the start of 1970.
pub fn unix_millis() -> (millis: u64)
    ensures
        exists|secs: u64, nanos: u32|
            nanos < 1_000_000_000 && millis == #[trigger] clamp_u64(
                (secs * 1000 + nanos / 1_000_000) as nat,
            ) && is_what_the_clock_gave(secs, nanos),
{
    let (secs, nanos) = since_unix_epoch();
    millis_since_epoch(secs, nanos)
}

/// Nanoseconds since the start of 1970.
pub fn unix_nanos() -> (total: u64)
    ensures
        exists|secs: u64, nanos: u32|
            nanos < 1_000_000_000 && total == #[trigger] clamp_u64(
                (secs * 1_000_000_000 + nanos) as nat,
            ) && is_what_the_clock_gave(secs, nanos),
{
    let (secs, nanos) = since_unix_epoch();
    nanos_since_epoch(secs, nanos)
}

/// A span in whole milliseconds, saturating.
pub fn duration_millis(duration: Duration) -> (millis: u64)
    ensures
        millis == clamp_u64(duration.millis()),
{
    saturate(duration.as_millis())
}

}
