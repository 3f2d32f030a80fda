//! The part of a container inspection the monitoring logic reads, and its
//! parsing into a container record.
//!
//! The runtime's inspect call returns a large document; the shell reduces it
//! to an [`InspectResponse`] — whether the state and config objects are
//! present, the health status string, and the labels — and the verified
//! functions here decide how the container is classified.

use vstd::prelude::*;

use crate::container::{Container, ContainerView};
use crate::health::{spec_health_from_status, Health};
use crate::registry::{fetched_view, InventoryItem};
use crate::text::{assoc_lookup, spec_assoc_lookup, str_eq};

verus! {

/// The state object of an inspect response: the health status string, if the
/// container has a health check that reported one.
pub struct InspectState {
    /// Status string of the container's health check (`None` when the
    /// container reports no status).
    pub health_status: Option<String>,
}

/// The config object of an inspect response: the container's labels.
pub struct InspectConfig {
    /// Label key/value pairs, `None` when the labels object is absent.
    pub labels: Option<Vec<(String, String)>>,
}

/// What the monitoring logic reads from one container inspection.
pub struct InspectResponse {
    /// The state object, `None` when absent.
    pub state: Option<InspectState>,
    /// The config object, `None` when absent.
    pub config: Option<InspectConfig>,
}

/// Why an inspect response is malformed.
#[derive(Debug)]
pub enum InspectError {
    /// The inspect response has no state object.
    MissingState,
    /// The health check reported this unrecognized status.
    InvalidHealthStatus(String),
    /// The inspect response has no config object.
    MissingConfig,
    /// The config object has no labels object.
    MissingLabels,
}

/// Mathematical value of an [`InspectError`].
pub enum InspectErrorView {
    MissingState,
    InvalidHealthStatus(Seq<char>),
    MissingConfig,
    MissingLabels,
}

impl View for InspectError {
    type V = InspectErrorView;

    open spec fn view(&self) -> InspectErrorView {
        match self {
            InspectError::MissingState => InspectErrorView::MissingState,
            InspectError::InvalidHealthStatus(s) => InspectErrorView::InvalidHealthStatus(s@),
            InspectError::MissingConfig => InspectErrorView::MissingConfig,
            InspectError::MissingLabels => InspectErrorView::MissingLabels,
        }
    }
}

/// The label key that selects monitored containers and names their endpoint.
pub open spec fn spec_label_key() -> Seq<char> {
    "healthchecks.url"@
}

/// The health a well-formed inspect response reports: `None` when the
/// container has no health check (no status, or status `none`).
pub open spec fn spec_inspect_health(resp: InspectResponse) -> Result<
    Option<Health>,
    InspectErrorView,
> {
    match resp.state {
        None => Err(InspectErrorView::MissingState),
        Some(st) => match st.health_status {
            None => Ok(None),
            Some(s) => if s@ == "none"@ {
                Ok(None)
            } else {
                match spec_health_from_status(s@) {
                    Some(h) => Ok(Some(h)),
                    None => Err(InspectErrorView::InvalidHealthStatus(s@)),
                }
            },
        },
    }
}

/// The endpoint label of a well-formed inspect response: `None` when the
/// container does not carry the distinguishing label.
pub open spec fn spec_inspect_label(resp: InspectResponse) -> Result<
    Option<Seq<char>>,
    InspectErrorView,
> {
    match resp.config {
        None => Err(InspectErrorView::MissingConfig),
        Some(cfg) => match cfg.labels {
            None => Err(InspectErrorView::MissingLabels),
            Some(labels) => Ok(spec_assoc_lookup(labels@, spec_label_key())),
        },
    }
}

/// How an inspect response classifies the container: its record when it
/// carries the distinguishing label, `None` when it does not (the label is
/// checked first, so a label-less container is never rejected for its health
/// status), or the malformation.
pub open spec fn spec_parse_inspect(resp: InspectResponse) -> Result<
    Option<ContainerView>,
    InspectErrorView,
> {
    match spec_inspect_label(resp) {
        Err(e) => Err(e),
        Ok(None) => Ok(None),
        Ok(Some(endpoint)) => match spec_inspect_health(resp) {
            Err(e) => Err(e),
            Ok(h) => Ok(Some(ContainerView { endpoint, health: h })),
        },
    }
}

/// Value of an inspect parsing result.
pub open spec fn parse_view(r: Result<Option<Container>, InspectError>) -> Result<
    Option<ContainerView>,
    InspectErrorView,
> {
    match r {
        Ok(Some(c)) => Ok(Some(c@)),
        Ok(None) => Ok(None),
        Err(e) => Err(e@),
    }
}

/// Extract the health status from an inspect response.
pub fn inspect_health(resp: &InspectResponse) -> (r: Result<Option<Health>, InspectError>)
    ensures
        (match r {
            Ok(h) => spec_inspect_health(*resp) == Result::<
                Option<Health>,
                InspectErrorView,
            >::Ok(h),
            Err(e) => spec_inspect_health(*resp) == Result::<
                Option<Health>,
                InspectErrorView,
            >::Err(e@),
        }),
{
    match &resp.state {
        None => Err(InspectError::MissingState),
        Some(st) => match &st.health_status {
            None => Ok(None),
            Some(s) => {
                if str_eq(s.as_str(), "none") {
                    Ok(None)
                } else {
                    match crate::health::health_from_status(s.as_str()) {
                        Some(h) => Ok(Some(h)),
                        None => Err(InspectError::InvalidHealthStatus(s.clone())),
                    }
                }
            },
        },
    }
}

/// Extract the endpoint label from an inspect response.
pub fn inspect_label(resp: &InspectResponse) -> (r: Result<Option<String>, InspectError>)
    ensures
        (match r {
            Ok(Some(l)) => spec_inspect_label(*resp) == Result::<
                Option<Seq<char>>,
                InspectErrorView,
            >::Ok(Some(l@)),
            Ok(None) => spec_inspect_label(*resp) == Result::<
                Option<Seq<char>>,
                InspectErrorView,
            >::Ok(None),
            Err(e) => spec_inspect_label(*resp) == Result::<
                Option<Seq<char>>,
                InspectErrorView,
            >::Err(e@),
        }),
{
    match &resp.config {
        None => Err(InspectError::MissingConfig),
        Some(cfg) => match &cfg.labels {
            None => Err(InspectError::MissingLabels),
            Some(labels) => Ok(assoc_lookup(labels, "healthchecks.url")),
        },
    }
}

/// The classification of a well-formed parse result.
pub open spec fn parse_ok_value(r: Result<Option<ContainerView>, InspectErrorView>) -> Option<
    ContainerView,
> {
    match r {
        Ok(v) => v,
        Err(_) => arbitrary(),
    }
}

/// Build the rows of a full inventory refresh from the inspect responses of
/// all listed containers.  A single malformed response aborts the whole
/// snapshot with its error; the result names the first one.
pub fn build_snapshot(items: Vec<(String, InspectResponse)>) -> (r: Result<
    Vec<InventoryItem>,
    InspectError,
>)
    ensures
        (match r {
            Ok(snap) => snap@.len() == items@.len() && forall|i: int|
                0 <= i < items@.len() ==> (#[trigger] spec_parse_inspect(items@[i].1)) is Ok
                    && snap@[i].id@ == items@[i].0@ && fetched_view(snap@[i].fetched)
                    == parse_ok_value(spec_parse_inspect(items@[i].1)),
            Err(e) => exists|i: int|
                0 <= i < items@.len() && (#[trigger] spec_parse_inspect(items@[i].1)) == Result::<
                    Option<ContainerView>,
                    InspectErrorView,
                >::Err(e@) && (forall|j: int|
                    0 <= j < i ==> (#[trigger] spec_parse_inspect(items@[j].1)) is Ok),
        }),
{
    let ghost orig = items@;
    let mut rest = items;
    let mut snap: Vec<InventoryItem> = Vec::new();
    #[verifier::loop_isolation(false)]
    while rest.len() > 0
        invariant
            rest@.len() <= orig.len(),
            rest@ == orig.subrange(orig.len() - rest@.len(), orig.len() as int),
            snap@.len() == orig.len() - rest@.len(),
            forall|i: int|
                0 <= i < snap@.len() ==> (#[trigger] spec_parse_inspect(orig[i].1)) is Ok
                    && snap@[i].id@ == orig[i].0@ && fetched_view(snap@[i].fetched)
                    == parse_ok_value(spec_parse_inspect(orig[i].1)),
        decreases rest@.len(),
    {
        let ghost consumed = orig.len() - rest@.len();
        let item = rest.remove(0);
        proof {
            assert(item == orig[consumed as int]);
            assert(rest@ =~= orig.subrange(orig.len() - rest@.len(), orig.len() as int));
        }
        let (id, resp) = item;
        match parse_inspect(&resp) {
            Ok(f) => {
                snap.push(InventoryItem { id, fetched: f });
            },
            Err(e) => {
                proof {
                    assert(0 <= consumed < orig.len() && spec_parse_inspect(
                        orig[consumed as int].1,
                    ) == Result::<Option<ContainerView>, InspectErrorView>::Err(e@));
                }
                return Err(e);
            },
        }
    }
    proof {
        assert(snap@.len() == orig.len());
    }
    Ok(snap)
}

/// Classify one container from its inspect response: its record when it
/// carries the distinguishing label, `None` when it does not.
pub fn parse_inspect(resp: &InspectResponse) -> (r: Result<Option<Container>, InspectError>)
    ensures
        parse_view(r) == spec_parse_inspect(*resp),
{
    match inspect_label(resp) {
        Err(e) => Err(e),
        Ok(None) => Ok(None),
        Ok(Some(endpoint)) => match inspect_health(resp) {
            Err(e) => Err(e),
            Ok(h) => Ok(Some(Container { endpoint, health: h })),
        },
    }
}

} // verus!
