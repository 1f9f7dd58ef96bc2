use kube_forward::backoff::{backoff_delay, backoff_delay_with, max_backoff, FRACTION_ONE};
use kube_forward::time::TimeSpan;

/// The jitter fraction standing for a real fraction in [0, 1].
fn frac(x: f64) -> u32 {
    (x * FRACTION_ONE as f64) as u32
}

#[test]
fn test_attempt_zero_is_zero() {
    assert_eq!(
        backoff_delay_with(TimeSpan::from_secs(5), 0, max_backoff(), frac(0.5)),
        TimeSpan::zero()
    );
}

#[test]
fn test_first_attempt_equals_base() {
    let base = TimeSpan::from_secs(5);
    // attempt 1 has no jitter window (floor == ceiling == base).
    assert_eq!(backoff_delay_with(base, 1, max_backoff(), frac(0.0)), base);
    assert_eq!(backoff_delay_with(base, 1, max_backoff(), frac(1.0)), base);
}

#[test]
fn test_grows_exponentially_within_window() {
    let base = TimeSpan::from_secs(1);
    // attempt 3 -> ceiling = base * 2^2 = 4s; fraction picks within [1s, 4s].
    assert_eq!(
        backoff_delay_with(base, 3, max_backoff(), frac(0.0)),
        TimeSpan::from_secs(1)
    );
    assert_eq!(
        backoff_delay_with(base, 3, max_backoff(), frac(1.0)),
        TimeSpan::from_secs(4)
    );
    let mid = backoff_delay_with(base, 3, max_backoff(), frac(0.5));
    assert!(mid >= TimeSpan::from_secs(1) && mid <= TimeSpan::from_secs(4));
}

#[test]
fn test_capped() {
    let base = TimeSpan::from_secs(10);
    let cap = TimeSpan::from_secs(30);
    // attempt 10 would be huge; ceiling clamps to cap.
    let d = backoff_delay_with(base, 10, cap, frac(1.0));
    assert_eq!(d, cap);
    let d0 = backoff_delay_with(base, 10, cap, frac(0.0));
    assert_eq!(d0, base);
}

#[test]
fn test_no_overflow_on_large_attempt() {
    // Must not panic on overflow for very large attempt counts.
    let d = backoff_delay_with(TimeSpan::from_secs(5), 1000, max_backoff(), frac(1.0));
    assert_eq!(d, max_backoff());
}

#[test]
fn test_public_fn_within_bounds() {
    let base = TimeSpan::from_secs(2);
    for attempt in 1..8 {
        let d = backoff_delay(base, attempt);
        assert!(d >= base, "delay {:?} below base at attempt {}", d, attempt);
        assert!(d <= max_backoff(), "delay {:?} above cap", d);
    }
}

#[test]
fn test_jitter_midpoint_exact() {
    // Window [1s, 4s] is 3s wide; half of FRACTION_ONE (rounded down) lands just below 2.5s.
    let d = backoff_delay_with(TimeSpan::from_secs(1), 3, max_backoff(), FRACTION_ONE / 2);
    assert_eq!(d.as_nanos(), 1_000_000_000 + 3_000_000_000u128 * (FRACTION_ONE / 2) as u128 / FRACTION_ONE as u128);
    assert_eq!(d.as_nanos(), 2_499_999_999);
}

#[test]
fn test_base_above_cap_is_capped() {
    // A base longer than the cap never waits longer than the cap.
    let d = backoff_delay_with(TimeSpan::from_secs(90), 1, max_backoff(), FRACTION_ONE);
    assert_eq!(d, max_backoff());
    let d = backoff_delay_with(TimeSpan::from_secs(90), 1, max_backoff(), 0);
    assert_eq!(d, max_backoff());
}

#[test]
fn test_zero_attempt_public_fn() {
    assert_eq!(backoff_delay(TimeSpan::from_secs(3), 0), TimeSpan::zero());
}

#[test]
fn test_delay_nondecreasing_in_attempt() {
    let base = TimeSpan::from_secs(1);
    for f in [0.0, 0.3, 1.0] {
        let mut last = TimeSpan::zero();
        for attempt in 0..40u32 {
            let d = backoff_delay_with(base, attempt, max_backoff(), frac(f));
            assert!(d >= last, "attempt {} fraction {}", attempt, f);
            last = d;
        }
    }
}
