//! Tests for inspect-response parsing and snapshot building.

use health_bridge::health::Health;
use health_bridge::inspect::{
    build_snapshot, inspect_health, inspect_label, parse_inspect, InspectConfig, InspectError,
    InspectResponse, InspectState,
};

fn resp(status: Option<&str>, labels: Option<Vec<(&str, &str)>>) -> InspectResponse {
    InspectResponse {
        state: Some(InspectState { health_status: status.map(|s| s.to_owned()) }),
        config: Some(InspectConfig {
            labels: labels.map(|ls| {
                ls.into_iter().map(|(k, v)| (k.to_owned(), v.to_owned())).collect()
            }),
        }),
    }
}

#[test]
fn labeled_container_is_parsed() {
    let r = resp(Some("healthy"), Some(vec![("healthchecks.url", "http://ping/1")]));
    let c = parse_inspect(&r).unwrap().expect("labeled container expected");
    assert_eq!(c.endpoint, "http://ping/1");
    assert_eq!(c.health, Some(Health::Healthy));
}

#[test]
fn unlabeled_container_parses_to_none() {
    let r = resp(Some("healthy"), Some(vec![("other.label", "x")]));
    assert!(parse_inspect(&r).unwrap().is_none());
    let r = resp(Some("healthy"), Some(vec![]));
    assert!(parse_inspect(&r).unwrap().is_none());
}

#[test]
fn health_statuses_are_parsed() {
    for (st, expected) in [
        ("healthy", Some(Health::Healthy)),
        ("unhealthy", Some(Health::Unhealthy)),
        ("starting", Some(Health::Starting)),
        ("none", None),
    ] {
        let r = resp(Some(st), Some(vec![("healthchecks.url", "u")]));
        let c = parse_inspect(&r).unwrap().expect("labeled container expected");
        assert_eq!(c.health, expected);
    }
    // a container that reports no status has no health check
    let r = resp(None, Some(vec![("healthchecks.url", "u")]));
    let c = parse_inspect(&r).unwrap().expect("labeled container expected");
    assert_eq!(c.health, None);
}

#[test]
fn invalid_health_status_is_an_error() {
    let r = resp(Some("flaky"), Some(vec![("healthchecks.url", "u")]));
    assert!(matches!(
        parse_inspect(&r),
        Err(InspectError::InvalidHealthStatus(st)) if st == "flaky"
    ));
}

#[test]
fn missing_objects_are_errors() {
    let r = InspectResponse {
        state: None,
        config: Some(InspectConfig { labels: Some(vec![("healthchecks.url".to_owned(), "u".to_owned())]) }),
    };
    assert!(matches!(inspect_health(&r), Err(InspectError::MissingState)));
    assert!(matches!(parse_inspect(&r), Err(InspectError::MissingState)));

    let r = InspectResponse { state: Some(InspectState { health_status: None }), config: None };
    assert!(matches!(inspect_label(&r), Err(InspectError::MissingConfig)));
    assert!(matches!(parse_inspect(&r), Err(InspectError::MissingConfig)));

    let r = InspectResponse {
        state: Some(InspectState { health_status: None }),
        config: Some(InspectConfig { labels: None }),
    };
    assert!(matches!(parse_inspect(&r), Err(InspectError::MissingLabels)));
}

/// The label is checked before the health status, so an unlabeled container
/// with a malformed status is still merely unlabeled.
#[test]
fn label_is_checked_before_health() {
    let r = resp(Some("flaky"), Some(vec![("other.label", "x")]));
    assert!(parse_inspect(&r).unwrap().is_none());
}

#[test]
fn snapshot_collects_all_rows() {
    let rows = vec![
        ("a".to_owned(), resp(Some("healthy"), Some(vec![("healthchecks.url", "u1")]))),
        ("b".to_owned(), resp(None, Some(vec![]))),
    ];
    let snap = build_snapshot(rows).expect("well-formed rows expected");
    assert_eq!(snap.len(), 2);
    assert_eq!(snap[0].id, "a");
    assert!(snap[0].fetched.is_some());
    assert_eq!(snap[1].id, "b");
    assert!(snap[1].fetched.is_none());
}

/// A single malformed inspect response aborts the whole snapshot with the
/// first error.
#[test]
fn one_malformed_row_aborts_the_snapshot() {
    let rows = vec![
        ("a".to_owned(), resp(Some("healthy"), Some(vec![("healthchecks.url", "u1")]))),
        ("b".to_owned(), resp(Some("bogus"), Some(vec![("healthchecks.url", "u2")]))),
        ("c".to_owned(), InspectResponse { state: None, config: None }),
    ];
    assert!(matches!(
        build_snapshot(rows),
        Err(InspectError::InvalidHealthStatus(st)) if st == "bogus"
    ));
}
