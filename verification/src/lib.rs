//! Verified core of a container-health monitoring bridge.
//!
//! The library tracks a live inventory of containers, aggregates their health
//! per monitoring endpoint, and decides which status pings to send.  All
//! state transitions are pure functions with proved contracts; the runtime
//! inventory calls, the event stream and the outbound HTTP pings are carried
//! out by an unverified shell around this crate.

pub mod config;
pub mod container;
pub mod events;
pub mod health;
pub mod healthchecks;
pub mod inspect;
pub mod laws;
pub mod registry;
pub mod scheduler;
pub mod text;
