//! Tests for the periodic work decision.

use health_bridge::scheduler::{Scheduler, TickError};

#[test]
fn first_tick_runs_everything() {
    let mut s = Scheduler::new(60, 600);
    let acts = s.tick(1_000_000).unwrap();
    assert!(acts.ping);
    assert!(acts.fetch);
}

#[test]
fn actions_wait_for_their_intervals() {
    let mut s = Scheduler::new(60, 600);
    s.tick(1_000_000).unwrap();

    // within both intervals: nothing to do
    let acts = s.tick(1_000_030).unwrap();
    assert!(!acts.ping && !acts.fetch);

    // exactly the interval is not yet "more than" it
    let acts = s.tick(1_000_060).unwrap();
    assert!(!acts.ping && !acts.fetch);

    // past the ping interval, fetch still waits
    let acts = s.tick(1_000_061).unwrap();
    assert!(acts.ping);
    assert!(!acts.fetch);

    // the ping clock restarted at the last ping
    let acts = s.tick(1_000_100).unwrap();
    assert!(!acts.ping);

    // past the fetch interval too
    let acts = s.tick(1_000_601).unwrap();
    assert!(acts.fetch);
}

#[test]
fn backwards_clock_is_an_error() {
    let mut s = Scheduler::new(60, 600);
    s.tick(1_000_000).unwrap();
    assert!(matches!(s.tick(999_999), Err(TickError::ClockWentBackwards)));
    // and the scheduler keeps working afterwards
    let acts = s.tick(1_000_061).unwrap();
    assert!(acts.ping);
}
