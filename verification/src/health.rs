//! The tri-state health value of a container and its aggregation order.

use vstd::prelude::*;

use crate::text::str_eq;

verus! {

/// The health named by a runtime status string, if it names one.
pub open spec fn spec_health_from_status(s: Seq<char>) -> Option<Health> {
    if s == "healthy"@ {
        Some(Health::Healthy)
    } else if s == "unhealthy"@ {
        Some(Health::Unhealthy)
    } else if s == "starting"@ {
        Some(Health::Starting)
    } else {
        None
    }
}

/// Parse a runtime status string into a health value.
pub fn health_from_status(s: &str) -> (r: Option<Health>)
    ensures
        r == spec_health_from_status(s@),
{
    if str_eq(s, "healthy") {
        Some(Health::Healthy)
    } else if str_eq(s, "unhealthy") {
        Some(Health::Unhealthy)
    } else if str_eq(s, "starting") {
        Some(Health::Starting)
    } else {
        None
    }
}

/// Health status of a container, as reported by the runtime.
///
/// For aggregation the values are totally ordered by [`severity`]:
/// `Healthy < Unhealthy < Starting`, and the worst (largest) value of a
/// group of containers wins.
#[derive(Debug, Clone, Copy, PartialEq, Eq, Structural)]
pub enum Health {
    /// The container is running correctly.
    Healthy,
    /// The container has a problem.
    Unhealthy,
    /// The container is not yet ready.
    Starting,
}

/// Rank of a health value in the aggregation order.
pub open spec fn severity(h: Health) -> int {
    match h {
        Health::Healthy => 0,
        Health::Unhealthy => 1,
        Health::Starting => 2,
    }
}

/// The worse of two health values under the aggregation order.
pub open spec fn spec_worse(a: Health, b: Health) -> Health {
    if severity(a) >= severity(b) {
        a
    } else {
        b
    }
}

impl Health {
    /// Rank of this health value in the aggregation order.
    pub fn rank(self) -> (r: u8)
        ensures
            r as int == severity(self),
    {
        match self {
            Health::Healthy => 0,
            Health::Unhealthy => 1,
            Health::Starting => 2,
        }
    }

    /// The worse of two health values under the aggregation order.
    pub fn worse(self, other: Health) -> (r: Health)
        ensures
            r == spec_worse(self, other),
    {
        if self.rank() >= other.rank() {
            self
        } else {
            other
        }
    }
}

} // verus!
