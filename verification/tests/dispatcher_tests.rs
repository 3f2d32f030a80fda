//! Tests for the ping dispatcher: target URLs, starting-ping deduplication
//! and the retry machine.

use health_bridge::health::Health;
use health_bridge::healthchecks::{run_attempts, Healthchecks, PingAttempts};

/// Target URLs: base for healthy, `/fail` for unhealthy, `/start` for
/// starting.
#[test]
fn ping_targets_by_health() {
    let mut hc = Healthchecks::new(0);
    let url = "https://hc.example/ping/x".to_owned();
    assert_eq!(hc.prepare_ping(&url, Health::Healthy).unwrap(), "https://hc.example/ping/x");
    assert_eq!(hc.prepare_ping(&url, Health::Unhealthy).unwrap(), "https://hc.example/ping/x/fail");
    assert_eq!(hc.prepare_ping(&url, Health::Starting).unwrap(), "https://hc.example/ping/x/start");
}

/// Two consecutive starting pings produce one outbound call; a healthy ping
/// then goes out, and a starting ping after that goes out again.
#[test]
fn starting_pings_are_deduplicated() {
    let mut hc = Healthchecks::new(3);
    let url = "https://hc.example/ping/x".to_owned();

    let first = hc.prepare_ping(&url, Health::Starting);
    assert_eq!(first.unwrap(), "https://hc.example/ping/x/start");

    let second = hc.prepare_ping(&url, Health::Starting);
    assert!(second.is_none());

    let healthy = hc.prepare_ping(&url, Health::Healthy);
    assert_eq!(healthy.unwrap(), "https://hc.example/ping/x");

    let again = hc.prepare_ping(&url, Health::Starting);
    assert_eq!(again.unwrap(), "https://hc.example/ping/x/start");
}

/// Deduplication is per endpoint.
#[test]
fn dedup_is_per_endpoint() {
    let mut hc = Healthchecks::new(3);
    let a = "https://hc.example/ping/a".to_owned();
    let b = "https://hc.example/ping/b".to_owned();
    assert!(hc.prepare_ping(&a, Health::Starting).is_some());
    assert!(hc.prepare_ping(&b, Health::Starting).is_some());
    assert!(hc.prepare_ping(&a, Health::Starting).is_none());
    assert!(hc.prepare_ping(&b, Health::Starting).is_none());
}

/// A non-starting ping for an endpoint not in the dedup set leaves the set
/// alone: two consecutive unhealthy pings both go out.
#[test]
fn non_starting_pings_always_go_out() {
    let mut hc = Healthchecks::new(3);
    let url = "https://hc.example/ping/x".to_owned();
    assert!(hc.prepare_ping(&url, Health::Unhealthy).is_some());
    assert!(hc.prepare_ping(&url, Health::Unhealthy).is_some());
    assert!(hc.prepare_ping(&url, Health::Healthy).is_some());
}

/// With retry count R and an endpoint that always fails, exactly R + 1
/// attempts are made and failure is reported.
#[test]
fn retries_exhaust_after_r_plus_one_attempts() {
    let outcomes = vec![false, false, false, false, false, false];
    let (attempts, ok) = run_attempts(&outcomes, 3);
    assert_eq!(attempts, 4);
    assert!(!ok);
}

/// With retry count 0 a failing delivery makes exactly one attempt.
#[test]
fn no_retries_means_single_attempt() {
    let outcomes = vec![false];
    let (attempts, ok) = run_attempts(&outcomes, 0);
    assert_eq!(attempts, 1);
    assert!(!ok);
}

/// If the endpoint succeeds on attempt k <= R + 1, exactly k attempts occur
/// and success is reported.
#[test]
fn delivery_stops_at_first_success() {
    let outcomes = vec![false, false, true, false, false];
    let (attempts, ok) = run_attempts(&outcomes, 4);
    assert_eq!(attempts, 3);
    assert!(ok);

    let outcomes = vec![true, false];
    let (attempts, ok) = run_attempts(&outcomes, 1);
    assert_eq!(attempts, 1);
    assert!(ok);

    // success on the very last allowed attempt
    let outcomes = vec![false, false, true];
    let (attempts, ok) = run_attempts(&outcomes, 2);
    assert_eq!(attempts, 3);
    assert!(ok);
}

/// The retry bookkeeping grants exactly the configured number of retries.
#[test]
fn ping_attempts_bookkeeping() {
    let mut tracker = PingAttempts::new(2);
    assert!(tracker.on_failure());
    assert!(tracker.on_failure());
    assert!(!tracker.on_failure());
    assert!(!tracker.on_failure());
}

/// The configured retry count is kept by the dispatcher.
#[test]
fn dispatcher_keeps_retry_count() {
    let hc = Healthchecks::new(7);
    assert_eq!(hc.retries(), 7);
}
