//! Exponential backoff with jitter for reconnects.
use vstd::arithmetic::power2::pow2;
use vstd::bits::{lemma_u32_pow2_no_overflow, lemma_u32_shl_is_mul};
use vstd::prelude::*;
use rand::TryRngCore;

use crate::time::{TimeSpan, MAX_NANOS, NANOS_PER_SEC};

verus! {

/// Upper bound on any single backoff delay, in seconds.
pub const MAX_BACKOFF_SECS: u64 = 60;

/// The jitter fraction that stands for 1: a `fraction` of `f` picks the point
/// `f / FRACTION_ONE` of the way through the jitter window.
pub const FRACTION_ONE: u32 = 0xffff_ffff;

/// The cap of [`backoff_delay`] in nanoseconds.
pub open spec fn max_backoff_nanos() -> nat {
    (MAX_BACKOFF_SECS * NANOS_PER_SEC) as nat
}

/// Upper bound on any single backoff delay (one minute).
pub fn max_backoff() -> (r: TimeSpan)
    ensures
        r@ == max_backoff_nanos(),
{
    TimeSpan::from_secs(MAX_BACKOFF_SECS)
}

/// The smaller of two numbers.
pub open spec fn min_nat(a: nat, b: nat) -> nat {
    if a <= b {
        a
    } else {
        b
    }
}

/// The doubling exponent used for a (1-based) attempt: `attempt - 1`, at most 31.
pub open spec fn backoff_exponent(attempt: nat) -> nat {
    if attempt == 0 {
        0
    } else if attempt - 1 <= 31 {
        (attempt - 1) as nat
    } else {
        31
    }
}

/// The top of the jitter window: `base * 2^(attempt - 1)` (saturating), clamped to `cap`.
pub open spec fn backoff_ceiling(base: nat, attempt: nat, cap: nat) -> nat {
    min_nat(min_nat(base * pow2(backoff_exponent(attempt)), MAX_NANOS as nat), cap)
}

/// The bottom of the jitter window: `base`, unless the ceiling is lower.
pub open spec fn backoff_floor(base: nat, attempt: nat, cap: nat) -> nat {
    min_nat(base, backoff_ceiling(base, attempt, cap))
}

/// The delay before retry `attempt` (1-based; `0` means no delay): the point
/// `fraction / FRACTION_ONE` of the way from the floor to the ceiling of the
/// window, rounded down to whole nanoseconds.
pub open spec fn backoff_delay_spec(base: nat, attempt: nat, cap: nat, fraction: nat) -> nat {
    if attempt == 0 {
        0
    } else {
        let floor = backoff_floor(base, attempt, cap);
        let span = (backoff_ceiling(base, attempt, cap) - floor) as nat;
        floor + span * fraction / (FRACTION_ONE as nat)
    }
}

/// Testable core of [`backoff_delay`]: `fraction` (out of [`FRACTION_ONE`]) picks a
/// point in the jitter window `[floor, ceiling]`, where
/// `ceiling = min(base * 2^(attempt - 1), cap)` and `floor = min(base, ceiling)`.
pub fn backoff_delay_with(base: TimeSpan, attempt: u32, cap: TimeSpan, fraction: u32) -> (r:
    TimeSpan)
    ensures
        r@ == backoff_delay_spec(base@, attempt as nat, cap@, fraction as nat),
{
    if attempt == 0 {
        return TimeSpan::zero();
    }
    let exp: u32 = if attempt - 1 < 31 {
        attempt - 1
    } else {
        31
    };
    proof {
        lemma_u32_pow2_no_overflow(exp as nat);
        lemma_u32_shl_is_mul(1, exp);
    }
    let factor: u32 = 1u32 << exp;
    assert(factor == pow2(exp as nat));
    let scaled = base.saturating_mul(factor);
    let ceiling = scaled.shorter(&cap);
    let floor = base.shorter(&ceiling);
    let span = ceiling.saturating_sub(&floor);
    let s = span.as_nanos();
    let f = floor.as_nanos();
    assert(s * (fraction as u128) <= MAX_NANOS * 4_294_967_295u128) by (nonlinear_arith)
        requires
            s <= MAX_NANOS,
            fraction <= 4_294_967_295u32,
    ;
    let jitter = s * (fraction as u128) / (FRACTION_ONE as u128);
    assert(jitter <= s) by (nonlinear_arith)
        requires
            jitter == (s * fraction) / (FRACTION_ONE as int),
            fraction <= FRACTION_ONE,
            FRACTION_ONE > 0,
    ;
    assert(f + s == ceiling@);
    TimeSpan::from_nanos(f + jitter)
}

/// A uniformly random jitter fraction (out of `FRACTION_ONE`), drawn from the
/// operating system's random source.
///
/// Calls `rand::rngs::OsRng::try_next_u32`, which reports a failure of that
/// source as an error instead of panicking; the error becomes `None`. Nothing
/// is promised of the value, which is any `u32`, nor of which outcome comes.
#[verifier::external_body]
fn random_fraction() -> (r: Option<u32>) {
    rand::rngs::OsRng.try_next_u32().ok()
}

/// Exponential backoff with jitter, capped at [`max_backoff`].
///
/// `attempt` is 1-based (the first retry is `1`). The delay grows as
/// `base * 2^(attempt - 1)`, clamped to the cap, with uniform jitter applied so
/// many forwards reconnecting at once do not synchronize into a thundering herd.
/// Should the system's random source fail, the delay is the bottom of the
/// window (a fraction of `0`).
pub fn backoff_delay(base: TimeSpan, attempt: u32) -> (r: TimeSpan)
    ensures
        exists|f: nat|
            f <= FRACTION_ONE && r@ == backoff_delay_spec(
                base@,
                attempt as nat,
                max_backoff_nanos(),
                f,
            ),
        attempt == 0 ==> r@ == 0,
        attempt > 0 ==> backoff_floor(base@, attempt as nat, max_backoff_nanos())
            <= r@ <= backoff_ceiling(base@, attempt as nat, max_backoff_nanos()),
{
    let fraction = match random_fraction() {
        Some(f) => f,
        None => 0,
    };
    let r = backoff_delay_with(base, attempt, max_backoff(), fraction);
    proof {
        if attempt > 0 {
            lemma_delay_in_window(base@, attempt as nat, max_backoff_nanos(), fraction as nat);
        }
    }
    r
}

/// Every delay lies in its jitter window, and the window's ends are reached
/// at fractions `0` and `FRACTION_ONE`.
pub proof fn lemma_delay_in_window(base: nat, attempt: nat, cap: nat, fraction: nat)
    requires
        attempt > 0,
        fraction <= FRACTION_ONE,
    ensures
        backoff_floor(base, attempt, cap) <= backoff_delay_spec(base, attempt, cap, fraction)
            <= backoff_ceiling(base, attempt, cap),
        fraction == 0 ==> backoff_delay_spec(base, attempt, cap, fraction) == backoff_floor(
            base,
            attempt,
            cap,
        ),
        fraction == FRACTION_ONE ==> backoff_delay_spec(base, attempt, cap, fraction)
            == backoff_ceiling(base, attempt, cap),
{
    let floor = backoff_floor(base, attempt, cap);
    let span = (backoff_ceiling(base, attempt, cap) - floor) as nat;
    let d = FRACTION_ONE as nat;
    assert(span * fraction / d <= span) by (nonlinear_arith)
        requires
            fraction <= d,
            d > 0,
    ;
    assert(span * d / d == span) by (nonlinear_arith)
        requires
            d > 0,
    ;
}

/// No delay exceeds the cap, and with a base no longer than the cap no retry
/// waits less than the base.
pub proof fn lemma_delay_bounds(base: nat, attempt: nat, cap: nat, fraction: nat)
    requires
        attempt > 0,
        fraction <= FRACTION_ONE,
    ensures
        backoff_delay_spec(base, attempt, cap, fraction) <= cap,
        base <= cap && base <= MAX_NANOS ==> base <= backoff_delay_spec(base, attempt, cap, fraction),
{
    lemma_delay_in_window(base, attempt, cap, fraction);
    let e = backoff_exponent(attempt);
    vstd::arithmetic::power2::lemma_pow2_pos(e);
    assert(base * pow2(e) >= base) by (nonlinear_arith)
        requires
            pow2(e) >= 1,
    ;
}

/// The first retry waits exactly the base, when the base is within the cap.
pub proof fn lemma_first_retry_is_base(base: nat, cap: nat, fraction: nat)
    requires
        base <= cap,
        base <= MAX_NANOS,
        fraction <= FRACTION_ONE,
    ensures
        backoff_delay_spec(base, 1, cap, fraction) == base,
{
    vstd::arithmetic::power2::lemma2_to64();
    assert(backoff_exponent(1) == 0);
    assert(base * pow2(0) == base);
    assert(backoff_ceiling(base, 1, cap) == base);
    assert(backoff_floor(base, 1, cap) == base);
    assert(0 * fraction / (FRACTION_ONE as nat) == 0) by (nonlinear_arith);
}

/// A larger jitter fraction never gives a shorter delay.
pub proof fn lemma_delay_monotone_in_fraction(base: nat, attempt: nat, cap: nat, f1: nat, f2: nat)
    requires
        f1 <= f2,
    ensures
        backoff_delay_spec(base, attempt, cap, f1) <= backoff_delay_spec(base, attempt, cap, f2),
{
    if attempt > 0 {
        let floor = backoff_floor(base, attempt, cap);
        let span = (backoff_ceiling(base, attempt, cap) - floor) as nat;
        let d = FRACTION_ONE as nat;
        assert(span * f1 / d <= span * f2 / d) by (nonlinear_arith)
            requires
                f1 <= f2,
                d > 0,
        ;
    }
}

/// Later retries never get a lower ceiling: the window grows with the attempt
/// number until it reaches the cap.
pub proof fn lemma_ceiling_monotone(base: nat, a1: nat, a2: nat, cap: nat)
    requires
        1 <= a1 <= a2,
    ensures
        backoff_ceiling(base, a1, cap) <= backoff_ceiling(base, a2, cap),
{
    let e1 = backoff_exponent(a1);
    let e2 = backoff_exponent(a2);
    if e1 < e2 {
        vstd::arithmetic::power2::lemma_pow2_strictly_increases(e1, e2);
    }
    assert(base * pow2(e1) <= base * pow2(e2)) by (nonlinear_arith)
        requires
            pow2(e1) <= pow2(e2),
    ;
}


/// With the jitter fraction fixed, a later retry never waits less than an
/// earlier one.
pub proof fn lemma_delay_monotone_in_attempt(base: nat, a1: nat, a2: nat, cap: nat, fraction: nat)
    requires
        a1 <= a2,
    ensures
        backoff_delay_spec(base, a1, cap, fraction) <= backoff_delay_spec(base, a2, cap, fraction),
{
    let d = FRACTION_ONE as nat;
    if a1 == 0 {
        if a2 > 0 {
            let floor = backoff_floor(base, a2, cap);
            let span = (backoff_ceiling(base, a2, cap) - floor) as nat;
            assert(span * fraction / d >= 0) by (nonlinear_arith)
                requires
                    d > 0,
            ;
        }
    } else {
        lemma_ceiling_monotone(base, a1, a2, cap);
        let c1 = backoff_ceiling(base, a1, cap);
        let c2 = backoff_ceiling(base, a2, cap);
        let fl1 = backoff_floor(base, a1, cap);
        let fl2 = backoff_floor(base, a2, cap);
        let s1 = (c1 - fl1) as nat;
        let s2 = (c2 - fl2) as nat;
        assert(s2 * fraction / d >= 0) by (nonlinear_arith)
            requires
                d > 0,
        ;
        if c1 <= base {
            assert(s1 == 0);
            assert(0 * fraction / d == 0) by (nonlinear_arith)
                requires
                    d > 0,
            ;
        } else {
            assert(fl1 == base && fl2 == base);
            assert(s1 <= s2);
            assert(s1 * fraction / d <= s2 * fraction / d) by (nonlinear_arith)
                requires
                    s1 <= s2,
                    d > 0,
            ;
        }
    }
}

/// The ceiling for retry `attempt` (1 to 32) is `base * 2^(attempt - 1)`,
/// clamped to the representable range and to `cap`; the full jitter fraction
/// waits exactly that long.
pub proof fn lemma_ceiling_is_doubled_base(base: nat, attempt: nat, cap: nat)
    requires
        1 <= attempt <= 32,
    ensures
        backoff_ceiling(base, attempt, cap) == min_nat(
            min_nat(base * pow2((attempt - 1) as nat), MAX_NANOS as nat),
            cap,
        ),
        backoff_delay_spec(base, attempt, cap, FRACTION_ONE as nat) == backoff_ceiling(
            base,
            attempt,
            cap,
        ),
{
    lemma_delay_in_window(base, attempt, cap, FRACTION_ONE as nat);
}

/// Each further retry doubles the wait ceiling, as long as neither the cap
/// nor the representable range is reached: for attempts 1 to 31,
/// `ceiling(attempt + 1) == 2 * ceiling(attempt)`.
pub proof fn lemma_ceiling_doubles(base: nat, attempt: nat, cap: nat)
    requires
        1 <= attempt <= 31,
        base * pow2(attempt) <= cap,
        base * pow2(attempt) <= MAX_NANOS,
    ensures
        backoff_ceiling(base, attempt + 1, cap) == 2 * backoff_ceiling(base, attempt, cap),
{
    let e = (attempt - 1) as nat;
    vstd::arithmetic::power2::lemma_pow2_unfold(attempt);
    assert(base * pow2(attempt) == 2 * (base * pow2(e))) by (nonlinear_arith)
        requires
            pow2(attempt) == 2 * pow2(e),
    ;
    assert(backoff_exponent(attempt) == e);
    assert(backoff_exponent(attempt + 1) == attempt);
}

} // verus!
