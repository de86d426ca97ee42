use ftplace::fetch::{cycle_due, next_due, FetchDecision, FetchEvent, FetchPolicy};
use ftplace::{BATCH_DELAY_MINUTES, MAX_RETRIES, RETRY_DELAY_SECS};

#[test]
fn upstream_unavailable_is_retried_with_fixed_backoff() {
    let mut p = FetchPolicy::start();
    for _ in 0..MAX_RETRIES {
        assert_eq!(
            p.on_event(&FetchEvent::Status(502)),
            FetchDecision::RetryAfter(RETRY_DELAY_SECS)
        );
    }
    assert_eq!(p.on_event(&FetchEvent::Status(502)), FetchDecision::Fatal);
}

#[test]
fn connection_failures_are_retried_then_fatal() {
    let mut p = FetchPolicy::start();
    for _ in 0..MAX_RETRIES {
        assert_eq!(
            p.on_event(&FetchEvent::ConnectionFailed),
            FetchDecision::RetryAfter(RETRY_DELAY_SECS)
        );
    }
    assert_eq!(p.on_event(&FetchEvent::ConnectionFailed), FetchDecision::Fatal);
}

#[test]
fn other_failures_are_fatal_at_once() {
    let mut p = FetchPolicy::start();
    assert_eq!(p.on_event(&FetchEvent::Status(404)), FetchDecision::Fatal);
    assert_eq!(p.on_event(&FetchEvent::Status(301)), FetchDecision::Fatal);
}

#[test]
fn success_proceeds() {
    let mut p = FetchPolicy::start();
    assert_eq!(p.on_event(&FetchEvent::Status(200)), FetchDecision::Proceed);
    assert_eq!(p.on_event(&FetchEvent::Status(204)), FetchDecision::Proceed);
}

#[test]
fn next_cycle_follows_the_tightest_cooldown() {
    assert_eq!(next_due(5_000, Some(30)), 35_000);
    assert_eq!(
        next_due(0, None),
        (BATCH_DELAY_MINUTES * 60 * 1000) as i64
    );
}

#[test]
fn next_cycle_saturates_at_the_far_end() {
    assert_eq!(next_due(i64::MAX - 5, Some(1)), i64::MAX);
}

#[test]
fn due_times_compare_plainly() {
    assert!(cycle_due(10, 10));
    assert!(cycle_due(11, 10));
    assert!(!cycle_due(9, 10));
}
