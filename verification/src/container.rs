//! Records for monitored containers and outbound ping requests.

use vstd::prelude::*;

use crate::health::Health;

verus! {

/// A monitored container: the endpoint its pings go to, and its last known
/// health (`None` when the container declares no health check).
#[derive(Debug)]
pub struct Container {
    /// Ping target identity, taken verbatim from the container's label.
    pub endpoint: String,
    /// Health status of the container; `None` if it has no health check.
    pub health: Option<Health>,
}

/// Mathematical value of a [`Container`].
pub struct ContainerView {
    pub endpoint: Seq<char>,
    pub health: Option<Health>,
}

impl View for Container {
    type V = ContainerView;

    open spec fn view(&self) -> ContainerView {
        ContainerView { endpoint: self.endpoint@, health: self.health }
    }
}

/// The health a container reports into aggregation: a container without a
/// health check counts as healthy.
pub open spec fn effective_health(health: Option<Health>) -> Health {
    match health {
        Some(h) => h,
        None => Health::Healthy,
    }
}

/// One status ping to be delivered: the endpoint it is addressed to and the
/// health value to report.
#[derive(Debug)]
pub struct PingRequest {
    /// Ping target identity (the base URL, before the health suffix).
    pub endpoint: String,
    /// Health value the ping reports.
    pub health: Health,
}

/// Mathematical value of a [`PingRequest`].
pub struct PingView {
    pub endpoint: Seq<char>,
    pub health: Health,
}

impl View for PingRequest {
    type V = PingView;

    open spec fn view(&self) -> PingView {
        PingView { endpoint: self.endpoint@, health: self.health }
    }
}

/// Value of an optional ping result, for relating executable results to the
/// specification-level transitions.
pub open spec fn ping_view(p: Option<PingRequest>) -> Option<PingView> {
    match p {
        Some(r) => Some(r@),
        None => None,
    }
}

} // verus!
