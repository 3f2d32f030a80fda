//! Scenario tests for the container registry: aggregation, event handling
//! and full refresh.

use health_bridge::container::Container;
use health_bridge::health::Health;
use health_bridge::registry::{ContainerManager, InventoryItem};

fn labeled(endpoint: &str, health: Option<Health>) -> Option<Container> {
    Some(Container { endpoint: endpoint.to_owned(), health })
}

/// Mixed health on one endpoint aggregates to the maximum under
/// Healthy < Unhealthy < Starting.
#[test]
fn aggregation_takes_worst_health() {
    let mut mgr = ContainerManager::new();
    mgr.container_started("a".to_owned(), labeled("http://ping/1", Some(Health::Healthy)));
    mgr.container_started("b".to_owned(), labeled("http://ping/1", Some(Health::Unhealthy)));

    let status = mgr.aggregated_status();
    assert_eq!(status.len(), 1);
    assert_eq!(status[0].endpoint, "http://ping/1");
    assert_eq!(status[0].health, Health::Unhealthy);

    mgr.container_started("c".to_owned(), labeled("http://ping/1", Some(Health::Starting)));
    let status = mgr.aggregated_status();
    assert_eq!(status.len(), 1);
    assert_eq!(status[0].health, Health::Starting);
}

/// A monitored container with no health check counts as healthy.
#[test]
fn missing_health_check_defaults_to_healthy() {
    let mut mgr = ContainerManager::new();
    mgr.container_started("a".to_owned(), labeled("http://ping/1", None));
    let status = mgr.aggregated_status();
    assert_eq!(status.len(), 1);
    assert_eq!(status[0].health, Health::Healthy);
}

/// Endpoints aggregate independently.
#[test]
fn endpoints_aggregate_independently() {
    let mut mgr = ContainerManager::new();
    mgr.container_started("a".to_owned(), labeled("http://ping/1", Some(Health::Unhealthy)));
    mgr.container_started("b".to_owned(), labeled("http://ping/2", Some(Health::Healthy)));
    let status = mgr.aggregated_status();
    assert_eq!(status.len(), 2);
    for req in &status {
        if req.endpoint == "http://ping/1" {
            assert_eq!(req.health, Health::Unhealthy);
        } else {
            assert_eq!(req.endpoint, "http://ping/2");
            assert_eq!(req.health, Health::Healthy);
        }
    }
}

/// An unlabeled container is remembered as ignored: it never pings, and
/// later events for the same id are no-ops.
#[test]
fn unlabeled_container_is_ignored_for_good() {
    let mut mgr = ContainerManager::new();
    let ping = mgr.container_started("a".to_owned(), None);
    assert!(ping.is_none());
    assert!(mgr.is_ignored(&"a".to_owned()));
    assert!(!mgr.is_monitored(&"a".to_owned()));

    // a later start event is a no-op even if an inspection would now find a
    // label (labels cannot change on a running container)
    let ping = mgr.container_started("a".to_owned(), labeled("http://ping/1", None));
    assert!(ping.is_none());
    assert!(mgr.is_ignored(&"a".to_owned()));
    assert!(mgr.aggregated_status().is_empty());

    // health events for it are no-ops too
    let ping = mgr.container_health_update("a".to_owned(), Health::Unhealthy, None);
    assert!(ping.is_none());
    assert!(mgr.is_ignored(&"a".to_owned()));
}

/// A start event for a labeled container pings the endpoint's aggregated
/// status at once.
#[test]
fn start_pings_aggregated_status() {
    let mut mgr = ContainerManager::new();
    let ping = mgr
        .container_started("a".to_owned(), labeled("http://ping/1", Some(Health::Unhealthy)))
        .expect("labeled start must ping");
    assert_eq!(ping.endpoint, "http://ping/1");
    assert_eq!(ping.health, Health::Unhealthy);

    // a healthy sibling does not mask the unhealthy one
    let ping = mgr
        .container_started("b".to_owned(), labeled("http://ping/1", Some(Health::Healthy)))
        .expect("labeled start must ping");
    assert_eq!(ping.health, Health::Unhealthy);
}

/// Killing a container while a sibling shares the endpoint sends no ping;
/// killing the last holder sends exactly one unhealthy ping.
#[test]
fn death_pings_only_for_last_holder() {
    let mut mgr = ContainerManager::new();
    mgr.container_started("a".to_owned(), labeled("http://ping/1", Some(Health::Healthy)));
    mgr.container_started("b".to_owned(), labeled("http://ping/1", Some(Health::Unhealthy)));

    // B dies, A remains: status silently becomes healthy, no ping
    let ping = mgr.container_died(&"b".to_owned());
    assert!(ping.is_none());
    let status = mgr.aggregated_status();
    assert_eq!(status.len(), 1);
    assert_eq!(status[0].health, Health::Healthy);

    // A dies, endpoint vacated: exactly one unhealthy ping
    let ping = mgr.container_died(&"a".to_owned()).expect("last holder must ping");
    assert_eq!(ping.endpoint, "http://ping/1");
    assert_eq!(ping.health, Health::Unhealthy);
    assert!(mgr.aggregated_status().is_empty());
}

/// A dying ignored container is forgotten silently.
#[test]
fn death_of_ignored_container_is_silent() {
    let mut mgr = ContainerManager::new();
    mgr.container_started("a".to_owned(), None);
    let ping = mgr.container_died(&"a".to_owned());
    assert!(ping.is_none());
    assert!(!mgr.is_ignored(&"a".to_owned()));
}

/// A death of an unknown id is a no-op.
#[test]
fn death_of_unknown_container_is_noop() {
    let mut mgr = ContainerManager::new();
    let ping = mgr.container_died(&"nope".to_owned());
    assert!(ping.is_none());
}

/// A health update for a monitored container changes its health in place and
/// pings the new aggregated status.
#[test]
fn health_update_changes_health_in_place() {
    let mut mgr = ContainerManager::new();
    mgr.container_started("a".to_owned(), labeled("http://ping/1", Some(Health::Starting)));
    let ping = mgr
        .container_health_update("a".to_owned(), Health::Healthy, None)
        .expect("update of a monitored container must ping");
    assert_eq!(ping.endpoint, "http://ping/1");
    assert_eq!(ping.health, Health::Healthy);
}

/// A health update racing ahead of the inventory inserts the container from
/// its inspection, like a start event.
#[test]
fn health_update_for_unknown_container_inserts_it() {
    let mut mgr = ContainerManager::new();
    let ping = mgr
        .container_health_update(
            "a".to_owned(),
            Health::Unhealthy,
            labeled("http://ping/1", Some(Health::Unhealthy)),
        )
        .expect("inserted container must ping");
    assert_eq!(ping.endpoint, "http://ping/1");
    assert_eq!(ping.health, Health::Unhealthy);
    assert!(mgr.is_monitored(&"a".to_owned()));

    // and one whose inspection shows no label moves to ignored, silently
    let mut mgr = ContainerManager::new();
    let ping = mgr.container_health_update("b".to_owned(), Health::Healthy, None);
    assert!(ping.is_none());
    assert!(mgr.is_ignored(&"b".to_owned()));
}

/// The status of an endpoint nobody reports to defaults to unhealthy.
#[test]
fn vacated_endpoint_reports_unhealthy() {
    let mgr = ContainerManager::new();
    assert_eq!(mgr.ping_status(&"http://ping/1".to_owned()), Health::Unhealthy);
}

/// A full refresh atomically replaces the snapshot: a container absent from
/// the new listing disappears without any die-path ping.
#[test]
fn refresh_is_atomic_snapshot_replace() {
    let mut mgr = ContainerManager::new();
    mgr.container_started("a".to_owned(), labeled("http://ping/1", Some(Health::Healthy)));
    mgr.container_started("b".to_owned(), labeled("http://ping/2", Some(Health::Healthy)));
    mgr.container_started("c".to_owned(), None);

    // the new listing no longer holds b or c, and reclassifies d
    mgr.refresh(vec![
        InventoryItem {
            id: "a".to_owned(),
            fetched: Some(Container {
                endpoint: "http://ping/1".to_owned(),
                health: Some(Health::Unhealthy),
            }),
        },
        InventoryItem { id: "d".to_owned(), fetched: None },
    ]);

    assert!(mgr.is_monitored(&"a".to_owned()));
    assert!(!mgr.is_monitored(&"b".to_owned()));
    assert!(!mgr.is_ignored(&"b".to_owned()));
    assert!(!mgr.is_ignored(&"c".to_owned()));
    assert!(mgr.is_ignored(&"d".to_owned()));

    let status = mgr.aggregated_status();
    assert_eq!(status.len(), 1);
    assert_eq!(status[0].endpoint, "http://ping/1");
    assert_eq!(status[0].health, Health::Unhealthy);
}

/// With duplicate ids in a listing, the later row wins, as for repeated
/// inserts.
#[test]
fn refresh_later_duplicate_wins() {
    let mut mgr = ContainerManager::new();
    mgr.refresh(vec![
        InventoryItem { id: "a".to_owned(), fetched: None },
        InventoryItem {
            id: "a".to_owned(),
            fetched: Some(Container { endpoint: "http://ping/1".to_owned(), health: None }),
        },
    ]);
    assert!(mgr.is_monitored(&"a".to_owned()));
}

/// The severity order ranks Healthy < Unhealthy < Starting.
#[test]
fn severity_order() {
    assert!(Health::Healthy.rank() < Health::Unhealthy.rank());
    assert!(Health::Unhealthy.rank() < Health::Starting.rank());
    assert_eq!(Health::Unhealthy.worse(Health::Starting), Health::Starting);
    assert_eq!(Health::Unhealthy.worse(Health::Healthy), Health::Unhealthy);
    assert_eq!(Health::Healthy.worse(Health::Healthy), Health::Healthy);
}
