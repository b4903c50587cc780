//! Spans of time, to the nanosecond.
use vstd::prelude::*;

verus! {

/// Nanoseconds in a second.
pub const NANOS_PER_SEC: u128 = 1_000_000_000;

/// Nanoseconds in a millisecond.
pub const NANOS_PER_MILLI: u128 = 1_000_000;

/// The longest span: `u64::MAX` whole seconds and 999,999,999 nanoseconds.
pub const MAX_NANOS: u128 = 18_446_744_073_709_551_615_999_999_999;

/// A span of time: whole seconds that fit in a `u64`, and nanoseconds.
///
/// Its view is its length in nanoseconds.
#[derive(Debug, Clone, Copy, PartialEq, Eq, Structural)]
pub struct Duration {
    nanos: u128,
}

impl View for Duration {
    type V = nat;

    closed spec fn view(&self) -> nat {
        self.nanos as nat
    }
}

impl Duration {
    #[verifier::type_invariant]
    spec fn in_range(self) -> bool {
        self.nanos <= MAX_NANOS
    }

    /// A span of `secs` seconds.
    pub fn from_secs(secs: u64) -> (span: Duration)
        ensures
            span@ == secs * NANOS_PER_SEC,
    {
        Duration { nanos: secs as u128 * NANOS_PER_SEC }
    }

    /// A span of `millis` milliseconds.
    pub fn from_millis(millis: u64) -> (span: Duration)
        ensures
            span@ == millis * NANOS_PER_MILLI,
    {
        Duration { nanos: millis as u128 * NANOS_PER_MILLI }
    }

    /// The whole seconds of the span.
    pub fn as_secs(self) -> (secs: u64)
        ensures
            secs == self@ / NANOS_PER_SEC as nat,
    {
        proof {
            use_type_invariant(&self);
        }
        (self.nanos / NANOS_PER_SEC) as u64
    }

    /// The nanoseconds of the span beyond its whole seconds.
    pub fn subsec_nanos(self) -> (nanos: u32)
        ensures
            nanos == self@ % NANOS_PER_SEC as nat,
    {
        (self.nanos % NANOS_PER_SEC) as u32
    }

    /// Whether twice the span is still a span.
    pub fn can_double(self) -> (fits: bool)
        ensures
            fits == (2 * self@ <= MAX_NANOS),
    {
        proof {
            use_type_invariant(&self);
        }
        self.nanos * 2 <= MAX_NANOS
    }

    /// Twice the span.
    pub fn double(self) -> (twice: Duration)
        requires
            2 * self@ <= MAX_NANOS,
        ensures
            twice@ == 2 * self@,
    {
        Duration { nanos: self.nanos * 2 }
    }

    /// The shorter of the two spans.
    pub fn min(self, other: Duration) -> (shorter: Duration)
        ensures
            shorter@ == if self@ <= other@ { self@ } else { other@ },
    {
        if self.nanos <= other.nanos {
            self
        } else {
            other
        }
    }
}

/// Spans of the same length are the same span.
pub proof fn law_length_determines_span(a: Duration, b: Duration)
    requires
        a@ == b@,
    ensures
        a == b,
{
}

/// The whole seconds and the nanoseconds beyond them make up the span.
pub proof fn law_parts_make_up_span(span: Duration)
    ensures
        span@ == (span@ / NANOS_PER_SEC as nat) * NANOS_PER_SEC + span@ % NANOS_PER_SEC as nat,
{
    vstd::arithmetic::div_mod::lemma_fundamental_div_mod(span@ as int, NANOS_PER_SEC as int);
}

/// A thousand milliseconds are a second, and a second is a billion nanoseconds.
pub proof fn law_milliseconds_make_up_seconds(secs: nat)
    ensures
        (1000 * secs) * NANOS_PER_MILLI == secs * NANOS_PER_SEC,
        secs * NANOS_PER_SEC == secs * 1_000_000_000,
{
}

/// The longest span is one nanosecond short of one more second than fits.
pub proof fn law_longest_span_is_one_nanosecond_short()
    ensures
        MAX_NANOS + 1 == (u64::MAX + 1) * 1_000_000_000,
{
}

} // verus!
