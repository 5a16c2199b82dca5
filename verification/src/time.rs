//! Spans of time, exact to the nanosecond.
//!
//! Presentation stamps, tolerances and frame intervals are all counted here in
//! whole nanoseconds, so that comparing two of them or taking one from another
//! is integer arithmetic with no rounding anywhere.

use vstd::prelude::*;

verus! {

/// A span of time in nanoseconds.
///
/// Wide enough for anything a media file can state: `u64::MAX` seconds, as a
/// count of nanoseconds, still fits.
#[derive(Clone, Copy, Debug, Default, PartialEq, Eq, PartialOrd, Ord, Hash, Structural)]
pub struct Duration {
    nanos: u128,
}

/// Nanoseconds in a second.
pub const NANOS_PER_SEC: u128 = 1_000_000_000;

/// Nanoseconds in a millisecond.
pub const NANOS_PER_MILLI: u128 = 1_000_000;

impl View for Duration {
    type V = nat;

    open spec fn view(&self) -> nat {
        self.spec_nanos() as nat
    }
}

impl Duration {
    /// The length in nanoseconds, for contracts.
    pub closed spec fn spec_nanos(self) -> u128 {
        self.nanos
    }

    /// No time at all.
    pub fn zero() -> (d: Duration)
        ensures
            d@ == 0,
    {
        Duration { nanos: 0 }
    }

    /// That many whole seconds.
    pub fn from_secs(secs: u64) -> (d: Duration)
        ensures
            d@ == secs * 1_000_000_000,
    {
        Duration { nanos: secs as u128 * NANOS_PER_SEC }
    }

    /// That many milliseconds.
    pub fn from_millis(millis: u64) -> (d: Duration)
        ensures
            d@ == millis * 1_000_000,
    {
        Duration { nanos: millis as u128 * NANOS_PER_MILLI }
    }

    /// That many nanoseconds.
    pub fn from_nanos(nanos: u64) -> (d: Duration)
        ensures
            d@ == nanos,
    {
        Duration { nanos: nanos as u128 }
    }

    /// That many nanoseconds, from a wider count.
    pub fn from_nanos_u128(nanos: u128) -> (d: Duration)
        ensures
            d@ == nanos,
    {
        Duration { nanos }
    }

    /// The whole span in nanoseconds.
    pub fn as_nanos(self) -> (n: u128)
        ensures
            n == self@,
    {
        self.nanos
    }

    /// Whether this is the empty span.
    pub fn is_zero(self) -> (b: bool)
        ensures
            b == (self@ == 0),
    {
        self.nanos == 0
    }

    /// `self - other`, or zero where `other` is the longer.
    pub fn saturating_sub(self, other: Duration) -> (d: Duration)
        ensures
            d@ == (if self@ >= other@ { self@ - other@ } else { 0 }),
    {
        if self.nanos >= other.nanos {
            Duration { nanos: self.nanos - other.nanos }
        } else {
            Duration::zero()
        }
    }

    /// `self + other`, or `None` where that does not fit.
    pub fn checked_add(self, other: Duration) -> (d: Option<Duration>)
        ensures
            d matches Some(sum) ==> sum@ == self@ + other@,
            d is None <==> self@ + other@ > u128::MAX,
    {
        match self.nanos.checked_add(other.nanos) {
            Some(nanos) => Some(Duration { nanos }),
            None => None,
        }
    }

    /// `self + other`, where that fits.
    pub fn plus(self, other: Duration) -> (d: Duration)
        requires
            self@ + other@ <= u128::MAX,
        ensures
            d@ == self@ + other@,
    {
        Duration { nanos: self.nanos + other.nanos }
    }

    /// Half of it, rounded down.
    pub fn half(self) -> (d: Duration)
        ensures
            d@ == self@ / 2,
    {
        Duration { nanos: self.nanos / 2 }
    }
}

/// Two durations made from the same count are the same duration.
pub proof fn lemma_duration_view_injective(a: Duration, b: Duration)
    requires
        a@ == b@,
    ensures
        a == b,
{
}

} // verus!
