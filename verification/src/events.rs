//! Classification of runtime lifecycle events.
//!
//! The event stream consumer hands each raw event's type, action and actor
//! id to [`classify_event`]; the result says which registry operation the
//! event calls for, or why the event is malformed.

use vstd::prelude::*;
use vstd::string::StrSliceExecFns;

use crate::health::{spec_health_from_status, Health};
use crate::text::{spec_has_prefix, str_eq};

verus! {

/// The registry operation a lifecycle event calls for.
#[derive(Debug)]
pub enum ContainerEvent {
    /// A container with this id started.
    Started(String),
    /// A container with this id died.
    Died(String),
    /// A container's health check reported this health.
    HealthChanged(String, Health),
    /// The event does not concern container health monitoring.
    Unrelated,
}

/// Mathematical value of a [`ContainerEvent`].
pub enum ContainerEventView {
    Started(Seq<char>),
    Died(Seq<char>),
    HealthChanged(Seq<char>, Health),
    Unrelated,
}

impl View for ContainerEvent {
    type V = ContainerEventView;

    open spec fn view(&self) -> ContainerEventView {
        match self {
            ContainerEvent::Started(id) => ContainerEventView::Started(id@),
            ContainerEvent::Died(id) => ContainerEventView::Died(id@),
            ContainerEvent::HealthChanged(id, h) => ContainerEventView::HealthChanged(id@, *h),
            ContainerEvent::Unrelated => ContainerEventView::Unrelated,
        }
    }
}

/// Why a lifecycle event could not be handled.
#[derive(Debug)]
pub enum EventError {
    /// The event carries no actor id to act on.
    MissingContainerId,
    /// A health event reported this unrecognized status.
    InvalidHealthStatus(String),
}

/// Mathematical value of an [`EventError`].
pub enum EventErrorView {
    MissingContainerId,
    InvalidHealthStatus(Seq<char>),
}

impl View for EventError {
    type V = EventErrorView;

    open spec fn view(&self) -> EventErrorView {
        match self {
            EventError::MissingContainerId => EventErrorView::MissingContainerId,
            EventError::InvalidHealthStatus(s) => EventErrorView::InvalidHealthStatus(s@),
        }
    }
}

/// Value of a classification result.
pub open spec fn classification_view(r: Result<ContainerEvent, EventError>) -> Result<
    ContainerEventView,
    EventErrorView,
> {
    match r {
        Ok(e) => Ok(e@),
        Err(e) => Err(e@),
    }
}

/// The action prefix of health status events.
pub open spec fn spec_health_prefix() -> Seq<char> {
    "health_status: "@
}

/// Value of an optional string.
pub open spec fn opt_view(s: Option<String>) -> Option<Seq<char>> {
    match s {
        Some(s) => Some(s@),
        None => None,
    }
}

/// How a raw lifecycle event is classified.  Only `container` events with
/// action `start`, `die` or `health_status: <status>` are acted on; those
/// need an actor id, and a health action's status must name a health value.
/// Every other event is unrelated.
pub open spec fn spec_classify(
    type_: Option<Seq<char>>,
    action: Option<Seq<char>>,
    actor_id: Option<Seq<char>>,
) -> Result<ContainerEventView, EventErrorView> {
    match (type_, action) {
        (Some(t), Some(a)) => {
            if t != "container"@ {
                Ok(ContainerEventView::Unrelated)
            } else if a == "start"@ {
                match actor_id {
                    Some(id) => Ok(ContainerEventView::Started(id)),
                    None => Err(EventErrorView::MissingContainerId),
                }
            } else if a == "die"@ {
                match actor_id {
                    Some(id) => Ok(ContainerEventView::Died(id)),
                    None => Err(EventErrorView::MissingContainerId),
                }
            } else if spec_has_prefix(a, spec_health_prefix()) {
                let status = a.skip(spec_health_prefix().len() as int);
                match actor_id {
                    Some(id) => match spec_health_from_status(status) {
                        Some(h) => Ok(ContainerEventView::HealthChanged(id, h)),
                        None => Err(EventErrorView::InvalidHealthStatus(status)),
                    },
                    None => Err(EventErrorView::MissingContainerId),
                }
            } else {
                Ok(ContainerEventView::Unrelated)
            }
        },
        _ => Ok(ContainerEventView::Unrelated),
    }
}

/// Classify one raw lifecycle event, given its type, action and actor id.
pub fn classify_event(
    type_: Option<String>,
    action: Option<String>,
    actor_id: Option<String>,
) -> (r: Result<ContainerEvent, EventError>)
    ensures
        classification_view(r) == spec_classify(opt_view(type_), opt_view(action), opt_view(actor_id)),
{
    let (t, a) = match (type_, action) {
        (Some(t), Some(a)) => (t, a),
        _ => {
            return Ok(ContainerEvent::Unrelated);
        },
    };
    if !str_eq(t.as_str(), "container") {
        return Ok(ContainerEvent::Unrelated);
    }
    if str_eq(a.as_str(), "start") {
        return match actor_id {
            Some(id) => Ok(ContainerEvent::Started(id)),
            None => Err(EventError::MissingContainerId),
        };
    }
    if str_eq(a.as_str(), "die") {
        return match actor_id {
            Some(id) => Ok(ContainerEvent::Died(id)),
            None => Err(EventError::MissingContainerId),
        };
    }
    let prefix = "health_status: ";
    let plen = prefix.unicode_len();
    let alen = a.as_str().unicode_len();
    if alen >= plen {
        let head = a.as_str().substring_char(0, plen);
        if str_eq(head, prefix) {
            let status: String = a.as_str().substring_char(plen, alen).to_owned();
            proof {
                assert(status@ =~= a@.skip(spec_health_prefix().len() as int));
            }
            return match actor_id {
                Some(id) => match crate::health::health_from_status(status.as_str()) {
                    Some(h) => Ok(ContainerEvent::HealthChanged(id, h)),
                    None => Err(EventError::InvalidHealthStatus(status)),
                },
                None => Err(EventError::MissingContainerId),
            };
        }
    }
    Ok(ContainerEvent::Unrelated)
}

} // verus!
