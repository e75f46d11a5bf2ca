use surmount_edge::rate_limit::{FixedWindowRateLimiter, RateLimitDecision, DEFAULT_MAX_KEYS};

const MS: u64 = 1_000_000;
const SEC: u64 = 1_000_000_000;

#[test]
fn allows_up_to_max_requests_in_window() {
    let mut lim = FixedWindowRateLimiter::new(3, 60 * SEC);
    let t0: u64 = 5 * SEC;
    assert!(matches!(lim.check("10.0.0.1", t0), RateLimitDecision::Allowed { remaining: 2 }));
    assert!(matches!(lim.check("10.0.0.1", t0 + MS), RateLimitDecision::Allowed { remaining: 1 }));
    assert!(matches!(lim.check("10.0.0.1", t0 + 2 * MS), RateLimitDecision::Allowed { remaining: 0 }));
    assert!(matches!(lim.check("10.0.0.1", t0 + 3 * MS), RateLimitDecision::Limited { .. }));
}

#[test]
fn separate_keys_have_independent_windows() {
    let mut lim = FixedWindowRateLimiter::new(1, 60 * SEC);
    let t0: u64 = 0;
    assert!(matches!(lim.check("a", t0), RateLimitDecision::Allowed { .. }));
    assert!(matches!(lim.check("b", t0), RateLimitDecision::Allowed { .. }));
    assert!(matches!(lim.check("a", t0), RateLimitDecision::Limited { .. }));
}

#[test]
fn window_reset_allows_again() {
    let mut lim = FixedWindowRateLimiter::new(1, 10 * SEC);
    let t0: u64 = 7;
    assert!(matches!(lim.check("k", t0), RateLimitDecision::Allowed { .. }));
    assert!(matches!(lim.check("k", t0 + SEC), RateLimitDecision::Limited { .. }));
    assert!(matches!(lim.check("k", t0 + 10 * SEC), RateLimitDecision::Allowed { remaining: 0 }));
}

#[test]
fn max_keys_cap_rejects_new_key_when_full() {
    let mut lim = FixedWindowRateLimiter::with_max_keys(5, 60 * SEC, 2);
    let t0: u64 = 0;
    assert!(matches!(lim.check("a", t0), RateLimitDecision::Allowed { .. }));
    assert!(matches!(lim.check("b", t0), RateLimitDecision::Allowed { .. }));
    assert!(matches!(lim.check("c", t0), RateLimitDecision::Limited { .. }));
    // Existing key still works within its budget.
    assert!(matches!(lim.check("a", t0), RateLimitDecision::Allowed { .. }));
    assert_eq!(lim.len_keys(), 2);
}

#[test]
fn limited_reports_exact_retry_after() {
    let mut lim = FixedWindowRateLimiter::new(1, 10 * SEC);
    assert_eq!(lim.check("k", 100), RateLimitDecision::Allowed { remaining: 0 });
    assert_eq!(lim.check("k", 100 + 4 * SEC), RateLimitDecision::Limited { retry_after: 6 * SEC });
}

#[test]
fn full_table_retry_after_is_the_window() {
    let mut lim = FixedWindowRateLimiter::with_max_keys(5, 10 * SEC, 1);
    assert!(matches!(lim.check("a", 0), RateLimitDecision::Allowed { remaining: 4 }));
    assert_eq!(lim.check("b", SEC), RateLimitDecision::Limited { retry_after: 10 * SEC });
    // Once the first key's window has closed it is dropped and capacity recovers.
    assert_eq!(lim.check("b", 10 * SEC), RateLimitDecision::Allowed { remaining: 4 });
    assert_eq!(lim.len_keys(), 1);
}

#[test]
fn limiter_getters_report_construction() {
    let lim = FixedWindowRateLimiter::new(7, 3 * SEC);
    assert_eq!(lim.max_requests(), 7);
    assert_eq!(lim.window(), 3 * SEC);
    assert_eq!(lim.max_keys(), DEFAULT_MAX_KEYS);
    assert_eq!(lim.len_keys(), 0);
}

#[test]
fn interleaved_history_within_one_window() {
    let mut lim = FixedWindowRateLimiter::new(2, 10 * SEC);
    let t0: u64 = 100 * SEC;
    assert_eq!(lim.check("a", t0), RateLimitDecision::Allowed { remaining: 1 });
    assert_eq!(lim.check("b", t0 + MS), RateLimitDecision::Allowed { remaining: 1 });
    assert_eq!(lim.check("b", t0 + 2 * MS), RateLimitDecision::Allowed { remaining: 0 });
    assert_eq!(lim.check("a", t0 + 3 * MS), RateLimitDecision::Allowed { remaining: 0 });
    match lim.check("a", t0 + 4 * SEC) {
        RateLimitDecision::Limited { retry_after } => assert_eq!(retry_after, 6 * SEC),
        other => panic!("{other:?}"),
    }
    assert!(lim.len_keys() <= DEFAULT_MAX_KEYS);
}
