//! Tests for lifecycle event classification.

use health_bridge::events::{classify_event, ContainerEvent, EventError};
use health_bridge::health::Health;

fn s(x: &str) -> Option<String> {
    Some(x.to_owned())
}

#[test]
fn start_event_is_classified() {
    let r = classify_event(s("container"), s("start"), s("abc123"));
    assert!(matches!(r, Ok(ContainerEvent::Started(id)) if id == "abc123"));
}

#[test]
fn die_event_is_classified() {
    let r = classify_event(s("container"), s("die"), s("abc123"));
    assert!(matches!(r, Ok(ContainerEvent::Died(id)) if id == "abc123"));
}

#[test]
fn health_status_events_are_classified() {
    let r = classify_event(s("container"), s("health_status: healthy"), s("a"));
    assert!(matches!(r, Ok(ContainerEvent::HealthChanged(id, Health::Healthy)) if id == "a"));

    let r = classify_event(s("container"), s("health_status: unhealthy"), s("a"));
    assert!(matches!(r, Ok(ContainerEvent::HealthChanged(_, Health::Unhealthy))));

    let r = classify_event(s("container"), s("health_status: starting"), s("a"));
    assert!(matches!(r, Ok(ContainerEvent::HealthChanged(_, Health::Starting))));
}

#[test]
fn unknown_health_status_is_an_error() {
    let r = classify_event(s("container"), s("health_status: flaky"), s("a"));
    assert!(matches!(r, Err(EventError::InvalidHealthStatus(st)) if st == "flaky"));
}

#[test]
fn missing_actor_id_is_an_error() {
    let r = classify_event(s("container"), s("start"), None);
    assert!(matches!(r, Err(EventError::MissingContainerId)));
    let r = classify_event(s("container"), s("die"), None);
    assert!(matches!(r, Err(EventError::MissingContainerId)));
    let r = classify_event(s("container"), s("health_status: healthy"), None);
    assert!(matches!(r, Err(EventError::MissingContainerId)));
}

#[test]
fn unrelated_events_are_skipped() {
    // other event types, even with a known action name
    let r = classify_event(s("network"), s("start"), s("a"));
    assert!(matches!(r, Ok(ContainerEvent::Unrelated)));

    // container actions outside the monitored set
    let r = classify_event(s("container"), s("pause"), s("a"));
    assert!(matches!(r, Ok(ContainerEvent::Unrelated)));

    // an action that merely resembles a health action
    let r = classify_event(s("container"), s("health_status:healthy"), s("a"));
    assert!(matches!(r, Ok(ContainerEvent::Unrelated)));

    // events with missing pieces
    let r = classify_event(None, s("start"), s("a"));
    assert!(matches!(r, Ok(ContainerEvent::Unrelated)));
    let r = classify_event(s("container"), None, s("a"));
    assert!(matches!(r, Ok(ContainerEvent::Unrelated)));

    // an unrelated event needs no actor id
    let r = classify_event(s("volume"), s("mount"), None);
    assert!(matches!(r, Ok(ContainerEvent::Unrelated)));
}
