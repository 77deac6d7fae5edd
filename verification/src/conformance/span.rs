//! A span of time, as the nanoseconds it lasts, over the range a standard duration holds.

use vstd::prelude::*;

verus! {

/// Nanoseconds in one second.
pub const NANOS_PER_SEC: u128 = 1_000_000_000;

/// Nanoseconds in one millisecond.
pub const NANOS_PER_MILLI: u128 = 1_000_000;

/// One past the longest span: as many whole seconds as a `u64` counts.
pub open spec fn span_bound() -> nat {
    (u64::MAX as nat + 1) * 1_000_000_000
}

/// A span of time.
#[derive(Debug, Clone, Copy, PartialEq, Eq, Structural)]
pub struct Span {
    nanos: u128,
}

impl Span {
    /// How long the span lasts, in nanoseconds.
    pub closed spec fn total(self) -> nat {
        self.nanos as nat
    }

    #[verifier::type_invariant]
    closed spec fn within_bound(self) -> bool {
        (self.nanos as nat) < span_bound()
    }

    /// Two spans of the same length are the same span.
    pub proof fn lemma_same(self, other: Span)
        requires
            self.total() == other.total(),
        ensures
            self == other,
    {
    }

    /// The span that lasts no time.
    pub fn zero() -> (r: Span)
        ensures
            r.total() == 0,
    {
        Span { nanos: 0 }
    }

    /// The span lasting a number of milliseconds.
    pub fn from_millis(millis: u64) -> (r: Span)
        ensures
            r.total() == millis * 1_000_000,
    {
        assert(millis * 1_000_000 < span_bound()) by (nonlinear_arith)
            requires
                millis <= u64::MAX,
        ;
        Span { nanos: millis as u128 * NANOS_PER_MILLI }
    }

    /// The span lasting whole seconds and then nanoseconds.
    pub fn new(secs: u64, nanos: u32) -> (r: Span)
        requires
            secs * 1_000_000_000 + nanos < span_bound(),
        ensures
            r.total() == secs * 1_000_000_000 + nanos,
    {
        Span { nanos: secs as u128 * NANOS_PER_SEC + nanos as u128 }
    }

    /// The whole seconds the span lasts.
    pub fn as_secs(&self) -> (r: u64)
        ensures
            r == self.total() / 1_000_000_000,
    {
        proof {
            use_type_invariant(self);
        }
        (self.nanos / NANOS_PER_SEC) as u64
    }

    /// The nanoseconds the span lasts past its whole seconds.
    pub fn subsec_nanos(&self) -> (r: u32)
        ensures
            r == self.total() % 1_000_000_000,
    {
        (self.nanos % NANOS_PER_SEC) as u32
    }

    /// How long the span lasts, in nanoseconds.
    pub fn as_nanos(&self) -> (r: u128)
        ensures
            r == self.total(),
    {
        self.nanos
    }

    /// The two spans one after the other, where that is still a span.
    pub fn checked_add(self, other: Span) -> (r: Option<Span>)
        ensures
            r is Some <==> self.total() + other.total() < span_bound(),
            r matches Some(sum) ==> sum.total() == self.total() + other.total(),
    {
        proof {
            use_type_invariant(self);
            use_type_invariant(other);
        }
        let sum = self.nanos + other.nanos;
        if sum < 18_446_744_073_709_551_616_000_000_000u128 {
            Some(Span { nanos: sum })
        } else {
            None
        }
    }

    /// The span divided into `parts` equal parts, rounded down to the nanosecond, where there are
    /// any parts.
    pub fn checked_div(self, parts: u32) -> (r: Option<Span>)
        ensures
            r is Some <==> parts != 0,
            r matches Some(part) ==> part.total() == self.total() / (parts as nat),
    {
        if parts == 0 {
            None
        } else {
            proof {
                use_type_invariant(self);
            }
            let part = self.nanos / (parts as u128);
            assert(part <= self.nanos) by (nonlinear_arith)
                requires
                    part == self.nanos / (parts as u128),
                    parts >= 1,
            ;
            Some(Span { nanos: part })
        }
    }

    /// How much longer this span is than `other`, or no time where it is not longer.
    pub fn saturating_sub(self, other: Span) -> (r: Span)
        ensures
            r.total() == if self.total() >= other.total() {
                self.total() - other.total()
            } else {
                0
            },
    {
        proof {
            use_type_invariant(self);
        }
        if self.nanos >= other.nanos {
            Span { nanos: self.nanos - other.nanos }
        } else {
            Span { nanos: 0 }
        }
    }

    /// Whether this span is no longer than `other`.
    pub fn no_longer_than(self, other: Span) -> (r: bool)
        ensures
            r == (self.total() <= other.total()),
    {
        self.nanos <= other.nanos
    }
}

} // verus!
