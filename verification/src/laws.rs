//! Laws of the registry and dispatcher transitions, proved once over the
//! specification-level state machines that the executable operations are
//! bound to by their contracts.
//!
//! The retry laws — a delivery that always fails makes exactly the initial
//! attempt plus the configured retries, and one that first succeeds at
//! attempt `k` makes exactly `k` attempts — are
//! [`crate::healthchecks::lemma_all_attempts_fail`] and
//! [`crate::healthchecks::lemma_first_success`].

use vstd::prelude::*;

use crate::container::{ContainerView, PingView};
use crate::health::Health;
use crate::healthchecks::{spec_ping_target, spec_prepare_ping};
use crate::registry::{
    agg_health, aggregated, endpoint_live, is_monitored_at, monitored_container, spec_container_died,
    spec_container_health_update, spec_container_started, spec_refresh, InventoryItem, RecordView,
};

verus! {

/// An endpoint whose monitored containers all lack a health check aggregates
/// to healthy: absent health defaults to healthy.
pub proof fn lemma_no_health_check_defaults_healthy(m: Map<Seq<char>, RecordView>, e: Seq<char>)
    requires
        endpoint_live(m, e),
        forall|id: Seq<char>|
            #[trigger] is_monitored_at(m, id) && monitored_container(m, id).endpoint == e
                ==> monitored_container(m, id).health is None,
    ensures
        agg_health(m, e) == Health::Healthy,
{
    assert(aggregated(m, e, Health::Healthy)) by {
        let id = choose|id: Seq<char>|
            #[trigger] is_monitored_at(m, id) && monitored_container(m, id).endpoint == e;
        assert(monitored_container(m, id).health is None);
    }
    crate::registry::lemma_aggregated_exists(m, e);
    crate::registry::lemma_aggregated_unique(m, e, Health::Healthy, agg_health(m, e));
}

/// A container that lacks the distinguishing label never becomes monitored
/// and never triggers a ping: its start classifies it as ignored, and every
/// later start or health event for the same id is a no-op without a ping.
pub proof fn lemma_unlabeled_stays_ignored(
    m: Map<Seq<char>, RecordView>,
    id: Seq<char>,
    h: Health,
    f1: Option<ContainerView>,
    f2: Option<ContainerView>,
)
    ensures
        ({
            let (m1, p1) = spec_container_started(m, id, None);
            &&& p1 is None
            &&& m1.contains_key(id) && m1[id] is Ignored
            &&& !is_monitored_at(m1, id)
            &&& spec_container_started(m1, id, f1) == (m1, Option::<PingView>::None)
            &&& spec_container_health_update(m1, id, h, f2) == (m1, Option::<PingView>::None)
        }),
{
}

/// A die event pings exactly when the dying container was the last monitored
/// holder of its endpoint: while another monitored container shares the
/// endpoint no ping is sent, and for the last holder exactly one unhealthy
/// ping for that endpoint is sent.
pub proof fn lemma_death_ping_gating(m: Map<Seq<char>, RecordView>, id: Seq<char>)
    requires
        is_monitored_at(m, id),
    ensures
        ({
            let e = monitored_container(m, id).endpoint;
            let (m2, ping) = spec_container_died(m, id);
            let survivor_shares = exists|id2: Seq<char>|
                id2 != id && #[trigger] is_monitored_at(m, id2) && monitored_container(
                    m,
                    id2,
                ).endpoint == e;
            &&& m2 == m.remove(id)
            &&& (survivor_shares ==> ping is None)
            &&& (!survivor_shares ==> ping == Some(
                PingView { endpoint: e, health: Health::Unhealthy },
            ))
        }),
{
    let e = monitored_container(m, id).endpoint;
    let m2 = m.remove(id);
    let survivor_shares = exists|id2: Seq<char>|
        id2 != id && #[trigger] is_monitored_at(m, id2) && monitored_container(m, id2).endpoint
            == e;
    if survivor_shares {
        let id2 = choose|id2: Seq<char>|
            id2 != id && #[trigger] is_monitored_at(m, id2) && monitored_container(
                m,
                id2,
            ).endpoint == e;
        assert(is_monitored_at(m2, id2) && monitored_container(m2, id2).endpoint == e);
        assert(endpoint_live(m2, e));
    } else {
        if endpoint_live(m2, e) {
            let id2 = choose|id2: Seq<char>|
                #[trigger] is_monitored_at(m2, id2) && monitored_container(m2, id2).endpoint == e;
            assert(id2 != id && is_monitored_at(m, id2) && monitored_container(m, id2).endpoint
                == e);
        }
    }
}

/// Starting-ping deduplication: after a starting ping goes out, a second
/// consecutive starting ping to the same endpoint is suppressed; a healthy
/// ping always goes out and clears the dedup state, so a starting ping after
/// it goes out again.
pub proof fn lemma_starting_dedup(s: Set<Seq<char>>, url: Seq<char>)
    requires
        !s.contains(url),
    ensures
        ({
            let (s1, t1) = spec_prepare_ping(s, url, Health::Starting);
            let (s2, t2) = spec_prepare_ping(s1, url, Health::Starting);
            let (s3, t3) = spec_prepare_ping(s1, url, Health::Healthy);
            let (s4, t4) = spec_prepare_ping(s3, url, Health::Starting);
            &&& t1 == Some(spec_ping_target(url, Health::Starting))
            &&& t2 is None && s2 == s1
            &&& t3 == Some(url) && !s3.contains(url)
            &&& t4 == Some(spec_ping_target(url, Health::Starting))
        }),
{
    let (s1, t1) = spec_prepare_ping(s, url, Health::Starting);
    assert(s1.contains(url));
    let s3 = spec_prepare_ping(s1, url, Health::Healthy).0;
    assert(!s3.contains(url));
}

/// A full refresh is a snapshot replace: the new state holds exactly the ids
/// of the listing — any container absent from it disappears, whatever the
/// state was before — and, the refresh transition returning no ping, no
/// die-path ping is triggered for it.
pub proof fn lemma_refresh_is_snapshot(items: Seq<InventoryItem>, id: Seq<char>)
    ensures
        (forall|i: int| 0 <= i < items.len() ==> (#[trigger] items[i]).id@ != id)
            ==> !spec_refresh(items).contains_key(id),
        (exists|i: int| 0 <= i < items.len() && (#[trigger] items[i]).id@ == id)
            ==> spec_refresh(items).contains_key(id),
    decreases items.len(),
{
    if items.len() > 0 {
        lemma_refresh_is_snapshot(items.drop_last(), id);
        let prefix = items.drop_last();
        assert(forall|i: int| 0 <= i < prefix.len() ==> prefix[i] == items[i]);
        if exists|i: int| 0 <= i < items.len() && (#[trigger] items[i]).id@ == id {
            let i = choose|i: int| 0 <= i < items.len() && (#[trigger] items[i]).id@ == id;
            if i < items.len() - 1 {
                assert(prefix[i].id@ == id);
            }
        }
    }
}

} // verus!
