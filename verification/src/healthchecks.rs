//! The ping dispatcher: deduplication of consecutive "starting" pings per
//! endpoint, construction of the physical target URL, and the bounded retry
//! policy for failed deliveries.
//!
//! Sending is not done here: [`Healthchecks::prepare_ping`] decides whether a
//! ping goes out and to which URL, and the retry machine decides, after each
//! failed attempt, whether another one is due.  The caller performs the HTTP
//! requests and the inter-attempt delays.

use vstd::prelude::*;
use vstd::string::StringExecFns;

use crate::health::Health;

verus! {

/// The physical target a ping for endpoint `url` with health `h` is sent to:
/// the base URL for healthy, and the `/fail` or `/start` sub-path otherwise.
pub open spec fn spec_ping_target(url: Seq<char>, h: Health) -> Seq<char> {
    match h {
        Health::Healthy => url,
        Health::Unhealthy => url + "/fail"@,
        Health::Starting => url + "/start"@,
    }
}

/// Dedup transition of the dispatcher: from the set of endpoints whose last
/// sent ping was starting, the pinged endpoint and the health to report, to
/// the next such set and the target URL to send to (`None`: the ping is
/// suppressed, because the endpoint was already notified as starting).
pub open spec fn spec_prepare_ping(starting: Set<Seq<char>>, url: Seq<char>, h: Health) -> (
    Set<Seq<char>>,
    Option<Seq<char>>,
) {
    if starting.contains(url) {
        if h is Starting {
            (starting, None)
        } else {
            (starting.remove(url), Some(spec_ping_target(url, h)))
        }
    } else {
        if h is Starting {
            (starting.insert(url), Some(spec_ping_target(url, h)))
        } else {
            (starting, Some(spec_ping_target(url, h)))
        }
    }
}

/// The value of an optional target URL.
pub open spec fn target_view(t: Option<String>) -> Option<Seq<char>> {
    match t {
        Some(s) => Some(s@),
        None => None,
    }
}

/// The set of endpoint URLs denoted by a sequence of strings.
spec fn set_of(s: Seq<String>) -> Set<Seq<char>>
    decreases s.len(),
{
    if s.len() == 0 {
        Set::empty()
    } else {
        set_of(s.drop_last()).insert(s.last()@)
    }
}

/// No two elements denote the same URL.
spec fn unique_urls(s: Seq<String>) -> bool {
    forall|i: int, j: int| 0 <= i < j < s.len() ==> s[i]@ != s[j]@
}

/// `set_of` contains exactly the values of the sequence's elements.
proof fn lemma_set_of_elems(s: Seq<String>)
    ensures
        forall|u: Seq<char>|
            #[trigger] set_of(s).contains(u) <==> exists|i: int| 0 <= i < s.len() && s[i]@ == u,
    decreases s.len(),
{
    if s.len() > 0 {
        let prefix = s.drop_last();
        lemma_set_of_elems(prefix);
        assert(set_of(s) == set_of(prefix).insert(s.last()@));
        assert forall|u: Seq<char>| #[trigger] set_of(s).contains(u) implies exists|i: int|
            0 <= i < s.len() && s[i]@ == u by {
            if u == s.last()@ {
                assert(0 <= s.len() - 1 < s.len() && s[s.len() - 1]@ == u);
            } else {
                assert(set_of(prefix).contains(u));
                let i = choose|i: int| 0 <= i < prefix.len() && prefix[i]@ == u;
                assert(0 <= i < s.len() && s[i]@ == u);
            }
        }
        assert forall|u: Seq<char>| (exists|i: int| 0 <= i < s.len() && s[i]@ == u) implies
            set_of(s).contains(u) by {
            let i = choose|i: int| 0 <= i < s.len() && s[i]@ == u;
            if i < s.len() - 1 {
                assert(prefix[i]@ == u);
            }
        }
    }
}

/// Appending a string adds its value to the set.
proof fn lemma_set_of_push(s: Seq<String>, x: String)
    ensures
        set_of(s.push(x)) == set_of(s).insert(x@),
{
    assert(s.push(x).drop_last() =~= s);
    assert(s.push(x).last() == x);
}

/// Removing the element at index `i` removes its value from the set, when
/// values are unique.
proof fn lemma_set_of_remove(s: Seq<String>, i: int)
    requires
        unique_urls(s),
        0 <= i < s.len(),
    ensures
        set_of(s.remove(i)) == set_of(s).remove(s[i]@),
    decreases s.len(),
{
    let prefix = s.drop_last();
    assert(unique_urls(prefix)) by {
        assert(forall|k: int| 0 <= k < prefix.len() ==> prefix[k] == s[k]);
    }
    lemma_set_of_elems(prefix);
    if i == s.len() - 1 {
        assert(s.remove(i) =~= prefix);
        assert(!set_of(prefix).contains(s[i]@));
        assert(set_of(prefix) =~= set_of(s).remove(s[i]@));
    } else {
        lemma_set_of_remove(prefix, i);
        assert(s.remove(i).drop_last() =~= prefix.remove(i));
        assert(s.remove(i).last() == s.last());
        assert(s[i]@ != s.last()@);
        assert(set_of(prefix).remove(s[i]@).insert(s.last()@) =~= set_of(prefix).insert(
            s.last()@,
        ).remove(s[i]@));
    }
}

/// The ping dispatcher: remembers which endpoints were last notified as
/// starting, and the configured retry count.  Its mathematical value is the
/// set of those endpoints' URLs.
pub struct Healthchecks {
    ping_retries: u8,
    starting: Vec<String>,
}

impl View for Healthchecks {
    type V = Set<Seq<char>>;

    closed spec fn view(&self) -> Set<Seq<char>> {
        set_of(self.starting@)
    }
}

impl Healthchecks {
    /// Internal well-formedness: the dedup list holds each URL once.
    pub closed spec fn wf(&self) -> bool {
        unique_urls(self.starting@)
    }

    /// The configured number of retries for failed deliveries.
    pub closed spec fn spec_retries(&self) -> u8 {
        self.ping_retries
    }

    /// Create a dispatcher that retries each failed delivery `ping_retries`
    /// times, with an empty dedup set.
    pub fn new(ping_retries: u8) -> (r: Self)
        ensures
            r.wf(),
            r@ == Set::<Seq<char>>::empty(),
            r.spec_retries() == ping_retries,
    {
        let r = Healthchecks { ping_retries, starting: Vec::new() };
        proof {
            assert(r@ =~= Set::<Seq<char>>::empty());
        }
        r
    }

    /// The configured number of retries for failed deliveries.
    pub fn retries(&self) -> (r: u8)
        ensures
            r == self.spec_retries(),
    {
        self.ping_retries
    }

    /// Index of `url` in the dedup list, if present.
    fn find_url(&self, url: &String) -> (r: Option<usize>)
        ensures
            match r {
                Some(i) => i < self.starting@.len() && self.starting@[i as int]@ == url@,
                None => forall|j: int| 0 <= j < self.starting@.len() ==> self.starting@[j]@ != url@,
            },
    {
        let mut i: usize = 0;
        while i < self.starting.len()
            invariant
                i <= self.starting@.len(),
                forall|j: int| 0 <= j < i ==> self.starting@[j]@ != url@,
            decreases self.starting@.len() - i,
        {
            if self.starting[i] == *url {
                return Some(i);
            }
            i = i + 1;
        }
        None
    }

    /// Decide one ping: update the dedup set and return the target URL the
    /// ping must be delivered to, or `None` when the ping is suppressed
    /// because the endpoint's last sent ping was already a starting one.
    pub fn prepare_ping(&mut self, url: &String, health: Health) -> (target: Option<String>)
        requires
            old(self).wf(),
        ensures
            final(self).wf(),
            final(self).spec_retries() == old(self).spec_retries(),
            final(self)@ == spec_prepare_ping(old(self)@, url@, health).0,
            target_view(target) == spec_prepare_ping(old(self)@, url@, health).1,
    {
        proof {
            lemma_set_of_elems(self.starting@);
        }
        let ghost pre = self.starting@;
        match self.find_url(url) {
            Some(i) => {
                match health {
                    Health::Starting => {
                        return None;
                    },
                    _ => {},
                }
                let _ = self.starting.remove(i);
                proof {
                    lemma_set_of_remove(pre, i as int);
                    assert(unique_urls(self.starting@)) by {
                        assert(forall|k: int|
                            0 <= k < self.starting@.len() ==> self.starting@[k] == (if k < i {
                                pre[k]
                            } else {
                                pre[k + 1]
                            }));
                    }
                    assert(pre[i as int]@ == url@);
                    assert(final(self)@ =~= spec_prepare_ping(old(self)@, url@, health).0);
                }
            },
            None => {
                match health {
                    Health::Starting => {
                        let ghost mid = self.starting@;
                        self.starting.push(url.clone());
                        proof {
                            lemma_set_of_push(mid, self.starting@.last());
                            assert(unique_urls(self.starting@)) by {
                                assert(forall|k: int|
                                    0 <= k < mid.len() ==> self.starting@[k] == mid[k]);
                            }
                        }
                    },
                    _ => {},
                }
            },
        }
        Some(make_target(url, health))
    }
}

/// Number of delivery attempts a ping makes, given the success of each
/// attempt in order and the configured retry count: attempts stop at the
/// first success, or once the initial attempt and `retries` retries have all
/// failed.
pub open spec fn attempts_used(outcomes: Seq<bool>, retries: nat) -> nat
    decreases outcomes.len(),
{
    if outcomes.len() == 0 {
        0
    } else if outcomes[0] {
        1
    } else if retries == 0 {
        1
    } else {
        1 + attempts_used(outcomes.skip(1), (retries - 1) as nat)
    }
}

/// Whether a ping is delivered: some attempt among the first `retries + 1`
/// succeeds.
pub open spec fn delivery_succeeds(outcomes: Seq<bool>, retries: nat) -> bool
    decreases outcomes.len(),
{
    if outcomes.len() == 0 {
        false
    } else if outcomes[0] {
        true
    } else if retries == 0 {
        false
    } else {
        delivery_succeeds(outcomes.skip(1), (retries - 1) as nat)
    }
}

/// If the first success comes at attempt `k + 1` with `k <= retries`, exactly
/// `k + 1` attempts are made and the delivery succeeds.
pub proof fn lemma_first_success(outcomes: Seq<bool>, retries: nat, k: int)
    requires
        0 <= k < outcomes.len(),
        k <= retries,
        outcomes[k],
        forall|j: int| 0 <= j < k ==> !outcomes[j],
    ensures
        attempts_used(outcomes, retries) == k + 1,
        delivery_succeeds(outcomes, retries),
    decreases k,
{
    if k > 0 {
        assert(!outcomes[0]);
        let rest = outcomes.skip(1);
        assert(rest[k - 1] == outcomes[k]);
        assert(forall|j: int| 0 <= j < k - 1 ==> rest[j] == outcomes[j + 1] && !rest[j]);
        lemma_first_success(rest, (retries - 1) as nat, k - 1);
    }
}

/// If the initial attempt and all `retries` retries fail, exactly
/// `retries + 1` attempts are made and the delivery fails.
pub proof fn lemma_all_attempts_fail(outcomes: Seq<bool>, retries: nat)
    requires
        outcomes.len() >= retries + 1,
        forall|j: int| 0 <= j < retries + 1 ==> !outcomes[j],
    ensures
        attempts_used(outcomes, retries) == retries + 1,
        !delivery_succeeds(outcomes, retries),
    decreases retries,
{
    assert(!outcomes[0]);
    if retries > 0 {
        let rest = outcomes.skip(1);
        assert(forall|j: int| 0 <= j < retries ==> rest[j] == outcomes[j + 1] && !rest[j]);
        lemma_all_attempts_fail(rest, (retries - 1) as nat);
    }
}

/// Retry bookkeeping for one ping delivery: how many retries are left after
/// the attempts already failed.
pub struct PingAttempts {
    /// Retries left before the delivery is reported as failed.
    pub remaining: u8,
}

impl PingAttempts {
    /// Start a delivery allowed `retries` retries after the initial attempt.
    pub fn new(retries: u8) -> (r: Self)
        ensures
            r.remaining == retries,
    {
        PingAttempts { remaining: retries }
    }

    /// Record one failed attempt.  Returns whether another attempt is due;
    /// when it returns false, the delivery has failed for good.
    pub fn on_failure(&mut self) -> (retry: bool)
        ensures
            retry == (old(self).remaining > 0),
            final(self).remaining == if old(self).remaining > 0 {
                old(self).remaining - 1
            } else {
                0
            },
    {
        if self.remaining > 0 {
            self.remaining = self.remaining - 1;
            true
        } else {
            false
        }
    }
}

/// Run the retry machine against a given sequence of attempt outcomes
/// (`true`: that attempt would succeed).  Returns how many attempts were
/// made and whether the delivery succeeded.
pub fn run_attempts(outcomes: &Vec<bool>, retries: u8) -> (r: (usize, bool))
    requires
        outcomes@.len() >= retries as nat + 1,
    ensures
        r.0 as nat == attempts_used(outcomes@, retries as nat),
        r.1 == delivery_succeeds(outcomes@, retries as nat),
{
    let mut tracker = PingAttempts::new(retries);
    let mut i: usize = 0;
    loop
        invariant
            i <= retries,
            tracker.remaining as int == retries as int - i as int,
            outcomes@.len() >= retries as nat + 1,
            forall|j: int| 0 <= j < i ==> !outcomes@[j],
        decreases retries as int - i as int,
    {
        let ok = outcomes[i];
        i = i + 1;
        if ok {
            proof {
                lemma_first_success(outcomes@, retries as nat, i - 1);
            }
            return (i, true);
        }
        if !tracker.on_failure() {
            proof {
                assert(i == retries as int + 1);
                lemma_all_attempts_fail(outcomes@, retries as nat);
            }
            return (i, false);
        }
    }
}

/// Build the physical target URL for one ping.
fn make_target(url: &String, health: Health) -> (t: String)
    ensures
        t@ == spec_ping_target(url@, health),
{
    match health {
        Health::Healthy => url.clone(),
        Health::Unhealthy => url.clone().concat("/fail"),
        Health::Starting => url.clone().concat("/start"),
    }
}

} // verus!
