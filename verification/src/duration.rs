//! A span of time, counted in whole nanoseconds.

use vstd::prelude::*;

verus! {

/// Nanoseconds in one second.
pub const NANOS_PER_SEC: u128 = 1_000_000_000;

/// Nanoseconds in one millisecond.
pub const NANOS_PER_MILLI: u128 = 1_000_000;

/// Nanoseconds in one microsecond.
pub const NANOS_PER_MICRO: u128 = 1_000;

/// The longest span a [`Duration`] can hold, in nanoseconds:
/// `u64::MAX` whole seconds and 999 999 999 nanoseconds more.
pub const MAX_NANOS: u128 = 18_446_744_073_709_551_615_999_999_999;

/// A span of time with nanosecond precision.
///
/// Its view is the span in nanoseconds. Every value lies between zero and
/// [`MAX_NANOS`].
#[derive(Clone, Copy, Debug, PartialEq, Eq, Structural)]
pub struct Duration {
    pub(crate) nanos: u128,
}

/// How long a packet is held back.
pub type Delay = Duration;

impl View for Duration {
    type V = nat;

    open(crate) spec fn view(&self) -> nat {
        self.nanos as nat
    }
}

impl DeepView for Duration {
    type V = nat;

    open(crate) spec fn deep_view(&self) -> nat {
        self.nanos as nat
    }
}

impl Duration {
    #[verifier::type_invariant]
    pub open(crate) spec fn in_range(self) -> bool {
        self.nanos <= MAX_NANOS
    }

    /// The empty span.
    pub open(crate) spec fn spec_zero() -> Duration {
        Duration { nanos: 0 }
    }

    /// The empty span.
    #[verifier::when_used_as_spec(spec_zero)]
    pub fn zero() -> (d: Duration)
        ensures
            d == Self::spec_zero(),
            d@ == 0,
    {
        Duration { nanos: 0 }
    }

    /// The longest span.
    pub open(crate) spec fn spec_max_value() -> Duration {
        Duration { nanos: MAX_NANOS }
    }

    /// The longest span.
    #[verifier::when_used_as_spec(spec_max_value)]
    pub fn max_value() -> (d: Duration)
        ensures
            d == Self::spec_max_value(),
            d@ == MAX_NANOS,
    {
        Duration { nanos: MAX_NANOS }
    }

    /// A span of `secs` whole seconds.
    pub open(crate) spec fn spec_from_secs(secs: u64) -> Duration {
        Duration { nanos: (secs * NANOS_PER_SEC) as u128 }
    }

    /// A span of `secs` whole seconds.
    #[verifier::when_used_as_spec(spec_from_secs)]
    pub fn from_secs(secs: u64) -> (d: Duration)
        ensures
            d == Self::spec_from_secs(secs),
            d@ == secs * NANOS_PER_SEC,
    {
        Duration { nanos: (secs as u128) * NANOS_PER_SEC }
    }

    /// A span of `millis` whole milliseconds.
    pub open(crate) spec fn spec_from_millis(millis: u64) -> Duration {
        Duration { nanos: (millis * NANOS_PER_MILLI) as u128 }
    }

    /// A span of `millis` whole milliseconds.
    #[verifier::when_used_as_spec(spec_from_millis)]
    pub fn from_millis(millis: u64) -> (d: Duration)
        ensures
            d == Self::spec_from_millis(millis),
            d@ == millis * NANOS_PER_MILLI,
    {
        Duration { nanos: (millis as u128) * NANOS_PER_MILLI }
    }

    /// A span of `micros` whole microseconds.
    pub open(crate) spec fn spec_from_micros(micros: u64) -> Duration {
        Duration { nanos: (micros * NANOS_PER_MICRO) as u128 }
    }

    /// A span of `micros` whole microseconds.
    #[verifier::when_used_as_spec(spec_from_micros)]
    pub fn from_micros(micros: u64) -> (d: Duration)
        ensures
            d == Self::spec_from_micros(micros),
            d@ == micros * NANOS_PER_MICRO,
    {
        Duration { nanos: (micros as u128) * NANOS_PER_MICRO }
    }

    /// A span of `nanos` nanoseconds.
    pub open(crate) spec fn spec_from_nanos(nanos: u64) -> Duration {
        Duration { nanos: nanos as u128 }
    }

    /// A span of `nanos` nanoseconds.
    #[verifier::when_used_as_spec(spec_from_nanos)]
    pub fn from_nanos(nanos: u64) -> (d: Duration)
        ensures
            d == Self::spec_from_nanos(nanos),
            d@ == nanos,
    {
        Duration { nanos: nanos as u128 }
    }

    /// The span of `nanos` nanoseconds, cut off at the longest span.
    pub fn saturating_from_nanos(nanos: u128) -> (d: Duration)
        ensures
            d@ == if nanos <= MAX_NANOS { nanos } else { MAX_NANOS },
    {
        if nanos <= MAX_NANOS {
            Duration { nanos }
        } else {
            Duration { nanos: MAX_NANOS }
        }
    }

    /// Whether the span is empty.
    pub fn is_zero(&self) -> (r: bool)
        ensures
            r == (self@ == 0),
    {
        self.nanos == 0
    }

    /// The whole span in nanoseconds.
    pub fn as_nanos(&self) -> (r: u128)
        ensures
            r == self@,
            r <= MAX_NANOS,
    {
        proof {
            use_type_invariant(self);
        }
        self.nanos
    }

    /// The whole seconds in the span.
    pub fn as_secs(&self) -> (r: u64)
        ensures
            r == self@ / (NANOS_PER_SEC as nat),
    {
        proof {
            use_type_invariant(self);
        }
        (self.nanos / NANOS_PER_SEC) as u64
    }

    /// The part of the span below one second, in nanoseconds.
    pub fn subsec_nanos(&self) -> (r: u32)
        ensures
            r == self@ % (NANOS_PER_SEC as nat),
    {
        (self.nanos % NANOS_PER_SEC) as u32
    }

    /// The shorter of two spans.
    pub fn min(self, other: Duration) -> (d: Duration)
        ensures
            d@ == if self@ <= other@ { self@ } else { other@ },
    {
        if self.nanos <= other.nanos {
            self
        } else {
            other
        }
    }
}

/// The nanoseconds of an optional span.
pub open spec fn span_of(duration: Option<Duration>) -> Option<nat> {
    match duration {
        Some(d) => Some(d@),
        None => None,
    }
}

} // verus!
