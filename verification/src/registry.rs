//! The container registry: the authoritative snapshot of monitored and
//! ignored containers, its aggregation of health per endpoint, and the
//! reconciliation operations driven by lifecycle events.
//!
//! The registry is modelled as a mapping from container id to a tagged
//! classification: `Monitored` (with the container record) or `Ignored`.
//! Every operation's contract is stated against that mapping, so that the
//! laws about event handling can be proved once, over the
//! specification-level transition functions.

use vstd::prelude::*;

use crate::container::{effective_health, ping_view, Container, ContainerView, PingRequest, PingView};
use crate::health::{severity, Health};

verus! {

/// How one container id is classified by the registry.
pub enum RecordView {
    /// The container carries the distinguishing label and is monitored.
    Monitored(ContainerView),
    /// The container lacks the label; it is remembered so that later events
    /// for the same id need no new inspection.
    Ignored,
}

/// Executable counterpart of [`RecordView`].
enum Record {
    Monitored(Container),
    Ignored,
}

impl View for Record {
    type V = RecordView;

    closed spec fn view(&self) -> RecordView {
        match self {
            Record::Monitored(c) => RecordView::Monitored(c@),
            Record::Ignored => RecordView::Ignored,
        }
    }
}

/// One registry entry: a container id and its classification.
struct Entry {
    id: String,
    record: Record,
}

/// The mapping denoted by a sequence of entries; a later entry for the same
/// id overrides an earlier one.
spec fn map_of(s: Seq<Entry>) -> Map<Seq<char>, RecordView>
    decreases s.len(),
{
    if s.len() == 0 {
        Map::empty()
    } else {
        map_of(s.drop_last()).insert(s.last().id@, s.last().record@)
    }
}

/// No two entries carry the same id.
spec fn unique_ids(s: Seq<Entry>) -> bool {
    forall|i: int, j: int| 0 <= i < j < s.len() ==> s[i].id@ != s[j].id@
}

/// Characterizes `map_of` by the entries of the sequence, for sequences with
/// unique ids: a key is present exactly when some entry carries it, and it
/// maps to that entry's record.
proof fn lemma_map_of_entries(s: Seq<Entry>)
    requires
        unique_ids(s),
    ensures
        forall|id: Seq<char>|
            #[trigger] map_of(s).contains_key(id) <==> exists|i: int|
                0 <= i < s.len() && s[i].id@ == id,
        forall|i: int|
            0 <= i < s.len() ==> map_of(s).contains_key(#[trigger] s[i].id@) && map_of(s)[s[i].id@]
                == s[i].record@,
    decreases s.len(),
{
    if s.len() > 0 {
        let prefix = s.drop_last();
        assert(unique_ids(prefix)) by {
            assert(forall|i: int, j: int|
                0 <= i < j < prefix.len() ==> prefix[i].id@ != prefix[j].id@) by {
                assert(forall|i: int| 0 <= i < prefix.len() ==> prefix[i] == s[i]);
            }
        }
        lemma_map_of_entries(prefix);
        let last = s.last();
        assert(map_of(s) == map_of(prefix).insert(last.id@, last.record@));
        assert forall|id: Seq<char>| #[trigger] map_of(s).contains_key(id) implies exists|i: int|
            0 <= i < s.len() && s[i].id@ == id by {
            if id == last.id@ {
                assert(0 <= s.len() - 1 < s.len() && s[s.len() - 1].id@ == id);
            } else {
                assert(map_of(prefix).contains_key(id));
                let i = choose|i: int| 0 <= i < prefix.len() && prefix[i].id@ == id;
                assert(prefix[i] == s[i]);
                assert(0 <= i < s.len() && s[i].id@ == id);
            }
        }
        assert forall|id: Seq<char>| (exists|i: int| 0 <= i < s.len() && s[i].id@ == id) implies
            map_of(s).contains_key(id) by {
            let i = choose|i: int| 0 <= i < s.len() && s[i].id@ == id;
            if i < s.len() - 1 {
                assert(prefix[i].id@ == id);
            }
        }
        assert forall|i: int| 0 <= i < s.len() implies map_of(s).contains_key(#[trigger] s[i].id@)
            && map_of(s)[s[i].id@] == s[i].record@ by {
            if i < s.len() - 1 {
                assert(prefix[i] == s[i]);
                // the last entry's id differs from this one, so the final
                // insert does not shadow it
                assert(s[i].id@ != last.id@);
            }
        }
    }
}

/// Appending a fresh entry inserts its record into the mapping.
proof fn lemma_map_of_push(s: Seq<Entry>, e: Entry)
    ensures
        map_of(s.push(e)) == map_of(s).insert(e.id@, e.record@),
{
    assert(s.push(e).drop_last() =~= s);
    assert(s.push(e).last() == e);
}

/// Removing the entry at index `i` removes its id from the mapping, when ids
/// are unique.
proof fn lemma_map_of_remove(s: Seq<Entry>, i: int)
    requires
        unique_ids(s),
        0 <= i < s.len(),
    ensures
        map_of(s.remove(i)) == map_of(s).remove(s[i].id@),
    decreases s.len(),
{
    let prefix = s.drop_last();
    assert(unique_ids(prefix)) by {
        assert(forall|k: int| 0 <= k < prefix.len() ==> prefix[k] == s[k]);
    }
    lemma_map_of_entries(prefix);
    if i == s.len() - 1 {
        assert(s.remove(i) =~= prefix);
        // the removed id is not among the remaining entries, so removing it
        // from the mapping changes nothing
        assert(!map_of(prefix).contains_key(s[i].id@));
        assert(map_of(prefix) =~= map_of(s).remove(s[i].id@));
    } else {
        lemma_map_of_remove(prefix, i);
        assert(s.remove(i).drop_last() =~= prefix.remove(i));
        assert(s.remove(i).last() == s.last());
        assert(map_of(s.remove(i)) == map_of(prefix.remove(i)).insert(
            s.last().id@,
            s.last().record@,
        ));
        assert(s[i].id@ != s.last().id@);
        assert(map_of(prefix).remove(s[i].id@).insert(s.last().id@, s.last().record@)
            =~= map_of(prefix).insert(s.last().id@, s.last().record@).remove(s[i].id@));
    }
}

/// One row of a full inventory listing: a container id and the inspection
/// result for it (`None` when the container lacks the distinguishing label).
pub struct InventoryItem {
    pub id: String,
    pub fetched: Option<Container>,
}

/// The classification an inventory row produces.
pub open spec fn snapshot_record(f: Option<Container>) -> RecordView {
    match f {
        Some(c) => RecordView::Monitored(c@),
        None => RecordView::Ignored,
    }
}

/// The registry state a full inventory listing produces, independent of any
/// prior state; a later row for the same id overrides an earlier one.
pub open spec fn spec_refresh(items: Seq<InventoryItem>) -> Map<Seq<char>, RecordView>
    decreases items.len(),
{
    if items.len() == 0 {
        Map::empty()
    } else {
        spec_refresh(items.drop_last()).insert(
            items.last().id@,
            snapshot_record(items.last().fetched),
        )
    }
}

/// Whether the entry is a monitored container reporting to `endpoint`.
spec fn entry_reports(e: Entry, endpoint: Seq<char>) -> bool {
    entry_monitored(e) && entry_endpoint(e) == endpoint
}

/// The effective health the entry reports into aggregation.
spec fn entry_eff(e: Entry) -> Health {
    match e.record@ {
        RecordView::Monitored(c) => effective_health(c.health),
        RecordView::Ignored => arbitrary(),
    }
}

/// Whether the entry is a monitored container.
spec fn entry_monitored(e: Entry) -> bool {
    e.record@ is Monitored
}

/// The endpoint of a monitored entry.
spec fn entry_endpoint(e: Entry) -> Seq<char> {
    match e.record@ {
        RecordView::Monitored(c) => c.endpoint,
        RecordView::Ignored => arbitrary(),
    }
}

/// Whether some element of `reqs` addresses `endpoint`.
fn reqs_contain(reqs: &Vec<PingRequest>, endpoint: &String) -> (r: bool)
    ensures
        r == exists|k: int| 0 <= k < reqs@.len() && (#[trigger] reqs@[k])@.endpoint == endpoint@,
{
    let mut k: usize = 0;
    while k < reqs.len()
        invariant
            k <= reqs@.len(),
            forall|j: int| 0 <= j < k ==> (#[trigger] reqs@[j])@.endpoint != endpoint@,
        decreases reqs@.len() - k,
    {
        if reqs[k].endpoint == *endpoint {
            return true;
        }
        k = k + 1;
    }
    false
}

/// Whether `id` is a monitored container of the registry state `m`.
pub open spec fn is_monitored_at(m: Map<Seq<char>, RecordView>, id: Seq<char>) -> bool {
    m.contains_key(id) && m[id] is Monitored
}

/// The container record of a monitored id.
pub open spec fn monitored_container(m: Map<Seq<char>, RecordView>, id: Seq<char>) -> ContainerView {
    match m[id] {
        RecordView::Monitored(c) => c,
        RecordView::Ignored => arbitrary(),
    }
}

/// Whether at least one monitored container reports to endpoint `e`.
pub open spec fn endpoint_live(m: Map<Seq<char>, RecordView>, e: Seq<char>) -> bool {
    exists|id: Seq<char>| #[trigger] is_monitored_at(m, id) && monitored_container(m, id).endpoint == e
}

/// `h` is at least as severe as every monitored container reporting to `e`.
pub open spec fn agg_bound(m: Map<Seq<char>, RecordView>, e: Seq<char>, h: Health) -> bool {
    forall|id: Seq<char>|
        #[trigger] is_monitored_at(m, id) && monitored_container(m, id).endpoint == e ==> severity(
            effective_health(monitored_container(m, id).health),
        ) <= severity(h)
}

/// `h` is the aggregated status of endpoint `e`: the maximum, under the
/// severity order, of the effective healths of all monitored containers
/// reporting to `e` (a container without a health check counts as healthy).
pub open spec fn aggregated(m: Map<Seq<char>, RecordView>, e: Seq<char>, h: Health) -> bool {
    agg_bound(m, e, h) && exists|id: Seq<char>|
        #[trigger] is_monitored_at(m, id) && monitored_container(m, id).endpoint == e
            && effective_health(monitored_container(m, id).health) == h
}

/// The aggregated status of a live endpoint.
pub open spec fn agg_health(m: Map<Seq<char>, RecordView>, e: Seq<char>) -> Health {
    choose|h: Health| aggregated(m, e, h)
}

/// The health value a ping for endpoint `e` reports: the aggregated status,
/// or unhealthy when no monitored container is left for `e`.
pub open spec fn status_health(m: Map<Seq<char>, RecordView>, e: Seq<char>) -> Health {
    if endpoint_live(m, e) {
        agg_health(m, e)
    } else {
        Health::Unhealthy
    }
}

/// A live endpoint has an aggregated status, and it is `agg_health`.
pub proof fn lemma_aggregated_exists(m: Map<Seq<char>, RecordView>, e: Seq<char>)
    requires
        endpoint_live(m, e),
    ensures
        aggregated(m, e, agg_health(m, e)),
{
    if exists|id: Seq<char>|
        #[trigger] is_monitored_at(m, id) && monitored_container(m, id).endpoint == e
            && effective_health(monitored_container(m, id).health) == Health::Starting {
        assert(aggregated(m, e, Health::Starting));
    } else if exists|id: Seq<char>|
        #[trigger] is_monitored_at(m, id) && monitored_container(m, id).endpoint == e
            && effective_health(monitored_container(m, id).health) == Health::Unhealthy {
        assert(aggregated(m, e, Health::Unhealthy));
    } else {
        let id = choose|id: Seq<char>|
            #[trigger] is_monitored_at(m, id) && monitored_container(m, id).endpoint == e;
        assert(effective_health(monitored_container(m, id).health) == Health::Healthy);
        assert(aggregated(m, e, Health::Healthy));
    }
}

/// The aggregated status of an endpoint is unique.
pub proof fn lemma_aggregated_unique(
    m: Map<Seq<char>, RecordView>,
    e: Seq<char>,
    h1: Health,
    h2: Health,
)
    requires
        aggregated(m, e, h1),
        aggregated(m, e, h2),
    ensures
        h1 == h2,
{
    assert(severity(h1) <= severity(h2));
    assert(severity(h2) <= severity(h1));
}

/// State transition for a container start event.  `fetched` is the record
/// obtained by inspecting the container (`None` when it lacks the
/// distinguishing label).  Returns the next state and the ping to send.
pub open spec fn spec_container_started(
    m: Map<Seq<char>, RecordView>,
    id: Seq<char>,
    fetched: Option<ContainerView>,
) -> (Map<Seq<char>, RecordView>, Option<PingView>) {
    if m.contains_key(id) && m[id] is Ignored {
        (m, None)
    } else {
        match fetched {
            Some(c) => {
                let m2 = m.insert(id, RecordView::Monitored(c));
                (m2, Some(PingView { endpoint: c.endpoint, health: status_health(m2, c.endpoint) }))
            },
            None => (m.insert(id, RecordView::Ignored), None),
        }
    }
}

/// State transition for a container die event.  A ping (always unhealthy) is
/// sent only when the dying container was the last monitored holder of its
/// endpoint.
pub open spec fn spec_container_died(m: Map<Seq<char>, RecordView>, id: Seq<char>) -> (
    Map<Seq<char>, RecordView>,
    Option<PingView>,
) {
    if m.contains_key(id) && m[id] is Ignored {
        (m.remove(id), None)
    } else if is_monitored_at(m, id) {
        let e = monitored_container(m, id).endpoint;
        let m2 = m.remove(id);
        (
            m2,
            if endpoint_live(m2, e) {
                None
            } else {
                Some(PingView { endpoint: e, health: Health::Unhealthy })
            },
        )
    } else {
        (m, None)
    }
}

/// State transition for a container health update event.  `fetched` matters
/// only when the id is neither monitored nor ignored yet (an event racing
/// ahead of inventory population).
pub open spec fn spec_container_health_update(
    m: Map<Seq<char>, RecordView>,
    id: Seq<char>,
    health: Health,
    fetched: Option<ContainerView>,
) -> (Map<Seq<char>, RecordView>, Option<PingView>) {
    if m.contains_key(id) && m[id] is Ignored {
        (m, None)
    } else if is_monitored_at(m, id) {
        let e = monitored_container(m, id).endpoint;
        let m2 = m.insert(id, RecordView::Monitored(ContainerView { endpoint: e, health: Some(health) }));
        (m2, Some(PingView { endpoint: e, health: status_health(m2, e) }))
    } else {
        spec_container_started(m, id, fetched)
    }
}

/// The value of an optional fetched container record.
pub open spec fn fetched_view(f: Option<Container>) -> Option<ContainerView> {
    match f {
        Some(c) => Some(c@),
        None => None,
    }
}

/// The authoritative snapshot of monitored and ignored containers, keyed by
/// container id.  Its mathematical value is a map from id to [`RecordView`].
pub struct ContainerManager {
    entries: Vec<Entry>,
}

impl View for ContainerManager {
    type V = Map<Seq<char>, RecordView>;

    closed spec fn view(&self) -> Map<Seq<char>, RecordView> {
        map_of(self.entries@)
    }
}

impl ContainerManager {
    /// Internal well-formedness: ids are unique, so that every id is in
    /// exactly one classification.
    pub closed spec fn wf(&self) -> bool {
        unique_ids(self.entries@)
    }

    /// Create an empty registry.
    pub fn new() -> (r: Self)
        ensures
            r.wf(),
            r@ == Map::<Seq<char>, RecordView>::empty(),
    {
        let r = ContainerManager { entries: Vec::new() };
        proof {
            assert(r@ =~= Map::<Seq<char>, RecordView>::empty());
        }
        r
    }

    /// Index of the entry carrying `id`, if any.
    fn find_index(&self, id: &String) -> (r: Option<usize>)
        ensures
            match r {
                Some(i) => i < self.entries@.len() && self.entries@[i as int].id@ == id@,
                None => forall|j: int| 0 <= j < self.entries@.len() ==> self.entries@[j].id@ != id@,
            },
    {
        let mut i: usize = 0;
        while i < self.entries.len()
            invariant
                i <= self.entries@.len(),
                forall|j: int| 0 <= j < i ==> self.entries@[j].id@ != id@,
            decreases self.entries@.len() - i,
        {
            if self.entries[i].id == *id {
                return Some(i);
            }
            i = i + 1;
        }
        None
    }

    /// Whether `id` is classified as ignored.
    pub fn is_ignored(&self, id: &String) -> (r: bool)
        requires
            self.wf(),
        ensures
            r == (self@.contains_key(id@) && self@[id@] is Ignored),
    {
        proof {
            lemma_map_of_entries(self.entries@);
        }
        match self.find_index(id) {
            Some(i) => match &self.entries[i].record {
                Record::Ignored => true,
                Record::Monitored(_) => false,
            },
            None => false,
        }
    }

    /// Whether `id` is classified as monitored.
    pub fn is_monitored(&self, id: &String) -> (r: bool)
        requires
            self.wf(),
        ensures
            r == is_monitored_at(self@, id@),
    {
        proof {
            lemma_map_of_entries(self.entries@);
        }
        match self.find_index(id) {
            Some(i) => match &self.entries[i].record {
                Record::Ignored => false,
                Record::Monitored(_) => true,
            },
            None => false,
        }
    }

    /// Insert or overwrite the classification of `id`.
    fn put(&mut self, id: String, record: Record)
        requires
            old(self).wf(),
        ensures
            final(self).wf(),
            final(self)@ == old(self)@.insert(id@, record@),
    {
        let ghost pre = self.entries@;
        let found = self.find_index(&id);
        match found {
            Some(i) => {
                let _ = self.entries.remove(i);
                proof {
                    lemma_map_of_remove(pre, i as int);
                    assert(unique_ids(pre.remove(i as int))) by {
                        assert(forall|k: int|
                            0 <= k < pre.remove(i as int).len() ==> pre.remove(i as int)[k] == (
                            if k < i {
                                pre[k]
                            } else {
                                pre[k + 1]
                            }));
                    }
                    // every remaining entry had an index other than `i`, so
                    // by uniqueness none of them carries `id`
                    assert(forall|k: int|
                        0 <= k < pre.remove(i as int).len() ==> pre.remove(i as int)[k].id@ != id@);
                }
                let ghost mid = self.entries@;
                self.entries.push(Entry { id, record });
                proof {
                    lemma_map_of_push(mid, self.entries@.last());
                    assert(unique_ids(self.entries@)) by {
                        assert(forall|k: int|
                            0 <= k < mid.len() ==> self.entries@[k] == mid[k]);
                    }
                    assert(final(self)@ =~= old(self)@.insert(id@, record@));
                }
            },
            None => {
                let ghost mid = self.entries@;
                self.entries.push(Entry { id, record });
                proof {
                    lemma_map_of_push(mid, self.entries@.last());
                    assert(unique_ids(self.entries@)) by {
                        assert(forall|k: int|
                            0 <= k < mid.len() ==> self.entries@[k] == mid[k]);
                    }
                }
            },
        }
    }

    /// The health a ping for `endpoint` reports in the current state: the
    /// aggregated status of the endpoint, or unhealthy when no monitored
    /// container reports to it.
    pub fn ping_status(&self, endpoint: &String) -> (h: Health)
        requires
            self.wf(),
        ensures
            h == status_health(self@, endpoint@),
    {
        let mut acc: Option<Health> = None;
        let mut i: usize = 0;
        while i < self.entries.len()
            invariant
                i <= self.entries@.len(),
                match acc {
                    None => forall|j: int|
                        0 <= j < i ==> !entry_reports(self.entries@[j], endpoint@),
                    Some(a) => {
                        &&& exists|j: int|
                            0 <= j < i && #[trigger] entry_reports(self.entries@[j], endpoint@)
                                && entry_eff(self.entries@[j]) == a
                        &&& forall|j: int|
                            0 <= j < i && #[trigger] entry_reports(self.entries@[j], endpoint@)
                                ==> severity(entry_eff(self.entries@[j])) <= severity(a)
                    },
                },
            decreases self.entries@.len() - i,
        {
            match &self.entries[i].record {
                Record::Monitored(c) => {
                    if c.endpoint == *endpoint {
                        let eff = match c.health {
                            Some(h) => h,
                            None => Health::Healthy,
                        };
                        assert(entry_reports(self.entries@[i as int], endpoint@));
                        assert(entry_eff(self.entries@[i as int]) == eff);
                        acc = Some(
                            match acc {
                                Some(a) => a.worse(eff),
                                None => eff,
                            },
                        );
                    }
                },
                Record::Ignored => {},
            }
            i = i + 1;
        }
        proof {
            lemma_map_of_entries(self.entries@);
            let m = self@;
            let e = endpoint@;
            match acc {
                None => {
                    assert(!endpoint_live(m, e)) by {
                        if endpoint_live(m, e) {
                            let id = choose|id: Seq<char>|
                                #[trigger] is_monitored_at(m, id) && monitored_container(
                                    m,
                                    id,
                                ).endpoint == e;
                            let j = choose|j: int|
                                0 <= j < self.entries@.len() && self.entries@[j].id@ == id;
                            assert(m[id] == self.entries@[j].record@);
                            assert(entry_reports(self.entries@[j], e));
                        }
                    }
                },
                Some(a) => {
                    assert(aggregated(m, e, a)) by {
                        let j = choose|j: int|
                            0 <= j < self.entries@.len() && #[trigger] entry_reports(
                                self.entries@[j],
                                e,
                            ) && entry_eff(self.entries@[j]) == a;
                        let wid = self.entries@[j].id@;
                        assert(m.contains_key(wid) && m[wid] == self.entries@[j].record@);
                        assert(is_monitored_at(m, wid) && monitored_container(m, wid).endpoint == e
                            && effective_health(monitored_container(m, wid).health) == a);
                        assert forall|id: Seq<char>|
                            #[trigger] is_monitored_at(m, id) && monitored_container(
                                m,
                                id,
                            ).endpoint == e implies severity(
                            effective_health(monitored_container(m, id).health),
                        ) <= severity(a) by {
                            let k = choose|k: int|
                                0 <= k < self.entries@.len() && self.entries@[k].id@ == id;
                            assert(m[id] == self.entries@[k].record@);
                            assert(entry_reports(self.entries@[k], e));
                        }
                    }
                    assert(endpoint_live(m, e));
                    lemma_aggregated_exists(m, e);
                    lemma_aggregated_unique(m, e, a, agg_health(m, e));
                },
            }
        }
        match acc {
            Some(h) => h,
            None => Health::Unhealthy,
        }
    }

    /// Whether any monitored container reports to `endpoint`.
    fn has_endpoint(&self, endpoint: &String) -> (r: bool)
        requires
            self.wf(),
        ensures
            r == endpoint_live(self@, endpoint@),
    {
        proof {
            lemma_map_of_entries(self.entries@);
        }
        let mut i: usize = 0;
        while i < self.entries.len()
            invariant
                self.wf(),
                i <= self.entries@.len(),
                forall|j: int| 0 <= j < i ==> !entry_reports(self.entries@[j], endpoint@),
            decreases self.entries@.len() - i,
        {
            match &self.entries[i].record {
                Record::Monitored(c) => {
                    if c.endpoint == *endpoint {
                        proof {
                            lemma_map_of_entries(self.entries@);
                            let wid = self.entries@[i as int].id@;
                            assert(self@[wid] == self.entries@[i as int].record@);
                            assert(is_monitored_at(self@, wid) && monitored_container(
                                self@,
                                wid,
                            ).endpoint == endpoint@);
                        }
                        return true;
                    }
                },
                Record::Ignored => {},
            }
            i = i + 1;
        }
        proof {
            if endpoint_live(self@, endpoint@) {
                let id = choose|id: Seq<char>|
                    #[trigger] is_monitored_at(self@, id) && monitored_container(
                        self@,
                        id,
                    ).endpoint == endpoint@;
                let j = choose|j: int|
                    0 <= j < self.entries@.len() && self.entries@[j].id@ == id;
                assert(self@[id] == self.entries@[j].record@);
                assert(entry_reports(self.entries@[j], endpoint@));
            }
        }
        false
    }

    /// The endpoint of a monitored container.
    fn monitored_endpoint(&self, id: &String) -> (e: String)
        requires
            self.wf(),
            is_monitored_at(self@, id@),
        ensures
            e@ == monitored_container(self@, id@).endpoint,
    {
        proof {
            lemma_map_of_entries(self.entries@);
        }
        match self.find_index(id) {
            Some(i) => {
                proof {
                    assert(self@[id@] == self.entries@[i as int].record@);
                }
                match &self.entries[i].record {
                    Record::Monitored(c) => c.endpoint.clone(),
                    Record::Ignored => {
                        proof {
                            assert(false);
                        }
                        String::new()
                    },
                }
            },
            None => {
                proof {
                    assert(false);
                }
                String::new()
            },
        }
    }

    /// Handle a container start event.  `fetched` is the inspection result
    /// for the container: its record, or `None` when it lacks the
    /// distinguishing label.  An id already classified as ignored is left
    /// untouched (no inspection is needed for it; see [`Self::is_ignored`]).
    /// Returns the ping to send: the current aggregated status of the new
    /// container's endpoint.
    pub fn container_started(&mut self, id: String, fetched: Option<Container>) -> (ping: Option<
        PingRequest,
    >)
        requires
            old(self).wf(),
        ensures
            final(self).wf(),
            final(self)@ == spec_container_started(old(self)@, id@, fetched_view(fetched)).0,
            ping_view(ping) == spec_container_started(old(self)@, id@, fetched_view(fetched)).1,
    {
        if self.is_ignored(&id) {
            return None;
        }
        match fetched {
            Some(c) => {
                let endpoint = c.endpoint.clone();
                self.put(id, Record::Monitored(c));
                let health = self.ping_status(&endpoint);
                Some(PingRequest { endpoint, health })
            },
            None => {
                self.put(id, Record::Ignored);
                None
            },
        }
    }

    /// Handle a container die event.  An ignored id is simply forgotten.  A
    /// monitored id is removed; exactly when it was the last monitored
    /// container of its endpoint, one unhealthy ping for that endpoint is
    /// returned — otherwise no ping is sent, even though the aggregated
    /// status may have changed.
    pub fn container_died(&mut self, id: &String) -> (ping: Option<PingRequest>)
        requires
            old(self).wf(),
        ensures
            final(self).wf(),
            final(self)@ == spec_container_died(old(self)@, id@).0,
            ping_view(ping) == spec_container_died(old(self)@, id@).1,
    {
        if self.is_ignored(id) {
            let _ = self.take(id);
            return None;
        }
        match self.take(id) {
            Some(Record::Monitored(c)) => {
                if !self.has_endpoint(&c.endpoint) {
                    Some(PingRequest { endpoint: c.endpoint, health: Health::Unhealthy })
                } else {
                    None
                }
            },
            Some(Record::Ignored) => {
                proof {
                    assert(false);
                }
                None
            },
            None => None,
        }
    }

    /// Handle a container health update event.  An ignored id is a no-op.  A
    /// monitored id has its health updated in place.  An unknown id is
    /// classified from `fetched`, as for a start event.  Whenever the id ends
    /// up monitored, the ping carries the endpoint's current aggregated
    /// status.
    pub fn container_health_update(
        &mut self,
        id: String,
        health: Health,
        fetched: Option<Container>,
    ) -> (ping: Option<PingRequest>)
        requires
            old(self).wf(),
        ensures
            final(self).wf(),
            final(self)@ == spec_container_health_update(
                old(self)@,
                id@,
                health,
                fetched_view(fetched),
            ).0,
            ping_view(ping) == spec_container_health_update(
                old(self)@,
                id@,
                health,
                fetched_view(fetched),
            ).1,
    {
        if self.is_ignored(&id) {
            return None;
        }
        if self.is_monitored(&id) {
            let endpoint = self.monitored_endpoint(&id);
            self.put(
                id,
                Record::Monitored(Container { endpoint: endpoint.clone(), health: Some(health) }),
            );
            let h = self.ping_status(&endpoint);
            Some(PingRequest { endpoint, health: h })
        } else {
            self.container_started(id, fetched)
        }
    }

    /// Replace the whole snapshot with the classifications of a fresh full
    /// inventory listing.  The swap is atomic: the prior state does not leak
    /// into the new one, and no ping is triggered.
    pub fn refresh(&mut self, items: Vec<InventoryItem>)
        requires
            old(self).wf(),
        ensures
            final(self).wf(),
            final(self)@ == spec_refresh(items@),
    {
        let ghost orig = items@;
        let mut rest = items;
        self.entries = Vec::new();
        proof {
            assert(orig.subrange(0, 0).len() == 0);
            assert(self@ =~= spec_refresh(orig.subrange(0, 0)));
        }
        while rest.len() > 0
            invariant
                self.wf(),
                rest@.len() <= orig.len(),
                rest@ == orig.subrange(orig.len() - rest@.len(), orig.len() as int),
                self@ == spec_refresh(orig.subrange(0, orig.len() - rest@.len())),
            decreases rest@.len(),
        {
            let ghost consumed = orig.len() - rest@.len();
            let it = rest.remove(0);
            proof {
                assert(it == orig[consumed as int]);
                assert(rest@ =~= orig.subrange(orig.len() - rest@.len(), orig.len() as int));
            }
            let InventoryItem { id, fetched } = it;
            let ghost gid = id@;
            let ghost grec = snapshot_record(fetched);
            match fetched {
                Some(c) => {
                    proof {
                        assert(grec == RecordView::Monitored(c@));
                    }
                    self.put(id, Record::Monitored(c));
                },
                None => self.put(id, Record::Ignored),
            }
            proof {
                let upto = orig.subrange(0, consumed as int + 1);
                assert(upto.drop_last() =~= orig.subrange(0, consumed as int));
                assert(upto.last() == orig[consumed as int]);
                assert(self@ == spec_refresh(upto));
            }
        }
        proof {
            assert(orig.subrange(0, orig.len() as int) =~= orig);
        }
    }

    /// The aggregated status of every live endpoint: one entry per endpoint,
    /// carrying the worst effective health among the monitored containers
    /// reporting to it.  The order of the entries is unspecified.
    pub fn aggregated_status(&self) -> (reqs: Vec<PingRequest>)
        requires
            self.wf(),
        ensures
            forall|k: int|
                0 <= k < reqs@.len() ==> endpoint_live(self@, (#[trigger] reqs@[k])@.endpoint)
                    && reqs@[k]@.health == agg_health(self@, reqs@[k]@.endpoint),
            forall|e: Seq<char>|
                #[trigger] endpoint_live(self@, e) ==> exists|k: int|
                    0 <= k < reqs@.len() && (#[trigger] reqs@[k])@.endpoint == e,
            forall|k1: int, k2: int|
                0 <= k1 < k2 < reqs@.len() ==> reqs@[k1]@.endpoint != reqs@[k2]@.endpoint,
    {
        proof {
            lemma_map_of_entries(self.entries@);
        }
        let mut reqs: Vec<PingRequest> = Vec::new();
        let mut i: usize = 0;
        while i < self.entries.len()
            invariant
                self.wf(),
                i <= self.entries@.len(),
                forall|k: int|
                    0 <= k < reqs@.len() ==> endpoint_live(self@, (#[trigger] reqs@[k])@.endpoint)
                        && reqs@[k]@.health == agg_health(self@, reqs@[k]@.endpoint),
                forall|j: int|
                    0 <= j < i && entry_monitored(#[trigger] self.entries@[j]) ==> exists|k: int|
                        0 <= k < reqs@.len() && (#[trigger] reqs@[k])@.endpoint == entry_endpoint(
                            self.entries@[j],
                        ),
                forall|k1: int, k2: int|
                    0 <= k1 < k2 < reqs@.len() ==> reqs@[k1]@.endpoint != reqs@[k2]@.endpoint,
            decreases self.entries@.len() - i,
        {
            match &self.entries[i].record {
                Record::Monitored(c) => {
                    proof {
                        assert(entry_monitored(self.entries@[i as int]) && entry_endpoint(
                            self.entries@[i as int],
                        ) == c.endpoint@);
                    }
                    let ghost prev = reqs@;
                    if !reqs_contain(&reqs, &c.endpoint) {
                        proof {
                            lemma_map_of_entries(self.entries@);
                            let wid = self.entries@[i as int].id@;
                            assert(self@[wid] == self.entries@[i as int].record@);
                            assert(is_monitored_at(self@, wid) && monitored_container(
                                self@,
                                wid,
                            ).endpoint == c.endpoint@);
                        }
                        let h = self.ping_status(&c.endpoint);
                        reqs.push(PingRequest { endpoint: c.endpoint.clone(), health: h });
                        proof {
                            assert(forall|k: int| 0 <= k < prev.len() ==> reqs@[k] == prev[k]);
                            assert((reqs@[reqs@.len() - 1])@.endpoint == c.endpoint@);
                            assert forall|j: int|
                                0 <= j < i + 1 && entry_monitored(
                                    #[trigger] self.entries@[j],
                                ) implies exists|k: int|
                                0 <= k < reqs@.len() && (#[trigger] reqs@[k])@.endpoint
                                    == entry_endpoint(self.entries@[j]) by {
                                if j < i {
                                    let k = choose|k: int|
                                        0 <= k < prev.len() && (#[trigger] prev[k])@.endpoint
                                            == entry_endpoint(self.entries@[j]);
                                    assert((reqs@[k])@.endpoint == entry_endpoint(
                                        self.entries@[j],
                                    ));
                                } else {
                                    assert((reqs@[reqs@.len() - 1])@.endpoint == entry_endpoint(
                                        self.entries@[j],
                                    ));
                                }
                            }
                        }
                    }
                },
                Record::Ignored => {},
            }
            i = i + 1;
        }
        proof {
            assert forall|e: Seq<char>| #[trigger] endpoint_live(self@, e) implies exists|k: int|
                0 <= k < reqs@.len() && (#[trigger] reqs@[k])@.endpoint == e by {
                let id = choose|id: Seq<char>|
                    #[trigger] is_monitored_at(self@, id) && monitored_container(
                        self@,
                        id,
                    ).endpoint == e;
                let j = choose|j: int|
                    0 <= j < self.entries@.len() && self.entries@[j].id@ == id;
                assert(self@[id] == self.entries@[j].record@);
                assert(entry_monitored(self.entries@[j]) && entry_endpoint(self.entries@[j]) == e);
            }
        }
        reqs
    }

    /// Remove the classification of `id`, returning the removed record.
    fn take(&mut self, id: &String) -> (r: Option<Record>)
        requires
            old(self).wf(),
        ensures
            final(self).wf(),
            match r {
                Some(rec) => old(self)@.contains_key(id@) && rec@ == old(self)@[id@]
                    && final(self)@ == old(self)@.remove(id@),
                None => !old(self)@.contains_key(id@) && final(self)@ == old(self)@,
            },
    {
        proof {
            lemma_map_of_entries(self.entries@);
        }
        let ghost pre = self.entries@;
        match self.find_index(id) {
            Some(i) => {
                let e = self.entries.remove(i);
                proof {
                    lemma_map_of_remove(pre, i as int);
                    assert(unique_ids(self.entries@)) by {
                        assert(forall|k: int|
                            0 <= k < self.entries@.len() ==> self.entries@[k] == (if k < i {
                                pre[k]
                            } else {
                                pre[k + 1]
                            }));
                    }
                }
                Some(e.record)
            },
            None => None,
        }
    }
}

} // verus!
