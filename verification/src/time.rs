//! Spans of time with nanosecond resolution and the saturating arithmetic the
//! backoff needs; the same range as `std::time::Duration`.
use vstd::prelude::*;

verus! {

/// Nanoseconds in one second.
pub const NANOS_PER_SEC: u128 = 1_000_000_000;

/// The longest representable span: `u64::MAX` seconds plus 999_999_999 nanoseconds.
pub const MAX_NANOS: u128 = 18_446_744_073_709_551_615 * 1_000_000_000 + 999_999_999;

/// A non-negative span of time, counted in nanoseconds.
#[derive(Clone, Copy, Debug, PartialEq, Eq, Hash, PartialOrd, Ord)]
pub struct TimeSpan {
    nanos: u128,
}

impl View for TimeSpan {
    type V = nat;

    /// The length of the span in nanoseconds.
    closed spec fn view(&self) -> nat {
        self.nanos as nat
    }
}

impl TimeSpan {
    #[verifier::type_invariant]
    spec fn in_range(self) -> bool {
        self.nanos <= MAX_NANOS
    }

    /// The empty span.
    pub fn zero() -> (r: TimeSpan)
        ensures
            r@ == 0,
    {
        TimeSpan { nanos: 0 }
    }

    /// The longest representable span.
    pub fn max_value() -> (r: TimeSpan)
        ensures
            r@ == MAX_NANOS,
    {
        TimeSpan { nanos: MAX_NANOS }
    }

    /// A span of `secs` whole seconds.
    pub fn from_secs(secs: u64) -> (r: TimeSpan)
        ensures
            r@ == secs * NANOS_PER_SEC,
    {
        assert(secs * NANOS_PER_SEC <= MAX_NANOS) by (nonlinear_arith)
            requires
                secs <= 18_446_744_073_709_551_615u64,
        ;
        TimeSpan { nanos: (secs as u128) * NANOS_PER_SEC }
    }

    /// A span of `millis` milliseconds.
    pub fn from_millis(millis: u64) -> (r: TimeSpan)
        ensures
            r@ == millis * 1_000_000,
    {
        assert(millis * 1_000_000 <= MAX_NANOS) by (nonlinear_arith)
            requires
                millis <= 18_446_744_073_709_551_615u64,
        ;
        TimeSpan { nanos: (millis as u128) * 1_000_000 }
    }

    /// A span of `nanos` nanoseconds.
    pub fn from_nanos(nanos: u128) -> (r: TimeSpan)
        requires
            nanos <= MAX_NANOS,
        ensures
            r@ == nanos,
    {
        TimeSpan { nanos }
    }

    /// A span of `secs` seconds and `nanos` further nanoseconds (`nanos` below one second).
    pub fn new(secs: u64, nanos: u32) -> (r: TimeSpan)
        requires
            nanos < NANOS_PER_SEC,
        ensures
            r@ == secs * NANOS_PER_SEC + nanos,
    {
        assert(secs * NANOS_PER_SEC + nanos <= MAX_NANOS) by (nonlinear_arith)
            requires
                secs <= 18_446_744_073_709_551_615u64,
                nanos < NANOS_PER_SEC,
        ;
        TimeSpan { nanos: (secs as u128) * NANOS_PER_SEC + (nanos as u128) }
    }

    /// The length in nanoseconds.
    pub fn as_nanos(&self) -> (r: u128)
        ensures
            r == self@,
            r <= MAX_NANOS,
    {
        proof {
            use_type_invariant(self);
        }
        self.nanos
    }

    /// The whole seconds in the span.
    pub fn as_secs(&self) -> (r: u64)
        ensures
            r == self@ / (NANOS_PER_SEC as nat),
    {
        proof {
            use_type_invariant(self);
        }
        assert(self.nanos / NANOS_PER_SEC <= 18_446_744_073_709_551_615u64) by (nonlinear_arith)
            requires
                self.nanos <= MAX_NANOS,
        ;
        (self.nanos / NANOS_PER_SEC) as u64
    }

    /// The nanoseconds beyond the whole seconds.
    pub fn subsec_nanos(&self) -> (r: u32)
        ensures
            r == self@ % (NANOS_PER_SEC as nat),
            r < NANOS_PER_SEC,
    {
        (self.nanos % NANOS_PER_SEC) as u32
    }

    /// `self * rhs`, or the longest span when that does not fit.
    pub fn saturating_mul(&self, rhs: u32) -> (r: TimeSpan)
        ensures
            r@ == if self@ * rhs <= MAX_NANOS {
                self@ * rhs
            } else {
                MAX_NANOS as int
            },
    {
        proof {
            use_type_invariant(self);
        }
        assert(self.nanos * (rhs as u128) <= MAX_NANOS * 4_294_967_295u128) by (nonlinear_arith)
            requires
                self.nanos <= MAX_NANOS,
                rhs <= 4_294_967_295u32,
        ;
        let p = self.nanos * (rhs as u128);
        if p <= MAX_NANOS {
            TimeSpan { nanos: p }
        } else {
            TimeSpan { nanos: MAX_NANOS }
        }
    }

    /// The shorter of two spans.
    pub fn shorter(&self, other: &TimeSpan) -> (r: TimeSpan)
        ensures
            r@ == if self@ <= other@ {
                self@
            } else {
                other@
            },
    {
        if self.nanos <= other.nanos {
            *self
        } else {
            *other
        }
    }

    /// `self - other`, or the empty span when `other` is longer.
    pub fn saturating_sub(&self, other: &TimeSpan) -> (r: TimeSpan)
        ensures
            r@ == if self@ >= other@ {
                self@ - other@
            } else {
                0
            },
    {
        proof {
            use_type_invariant(self);
        }
        if self.nanos >= other.nanos {
            TimeSpan { nanos: self.nanos - other.nanos }
        } else {
            TimeSpan { nanos: 0 }
        }
    }
}

impl Default for TimeSpan {
    fn default() -> (r: TimeSpan)
        ensures
            r@ == 0,
    {
        TimeSpan { nanos: 0 }
    }
}

} // verus!
