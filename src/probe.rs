//! OS identity of guests, remembered for a time-to-live.
//!
//! Looking up an identity alternates between this manager and the
//! transport: `get_os` answers from the cache or names the first query to
//! send, and `on_reply` takes each query's outcome and says what comes next.
//! The caller holds the manager behind a lock only while calling these two,
//! never across a transport call.

use vstd::prelude::*;
use crate::identity::{identity_from_os, identity_from_osinfo, os_identity, osinfo_identity};
use crate::transfer::Event;
use crate::wire::{os_cmd, os_command, osinfo_cmd, osinfo_command, Command, CommandModel};

verus! {

/// An identity remembered for one guest.
pub struct CacheEntry {
    pub subject: String,
    pub value: String,
    /// Clock reading, in milliseconds, when the value was recorded.
    pub recorded_at: u64,
}

/// The value and recording time of the first entry for `subject`.
pub open spec fn cache_lookup(es: Seq<CacheEntry>, subject: Seq<char>) -> Option<(Seq<char>, u64)>
    decreases es.len(),
{
    if es.len() == 0 {
        None
    } else if es[0].subject@ == subject {
        Some((es[0].value@, es[0].recorded_at))
    } else {
        cache_lookup(es.drop_first(), subject)
    }
}

/// Time elapsed from `then` to `now`, zero if the clock reads earlier.
pub open spec fn age(now: u64, then: u64) -> nat {
    if now >= then { (now - then) as nat } else { 0 }
}

/// The remembered value for `subject` if it is younger than `ttl`.
pub open spec fn fresh_value(es: Seq<CacheEntry>, ttl: u64, subject: Seq<char>, now: u64) -> Option<Seq<char>> {
    match cache_lookup(es, subject) {
        Some((v, t)) => if age(now, t) < ttl { Some(v) } else { None },
        None => None,
    }
}

/// The two identity queries, the richer one first.
#[derive(PartialEq, Eq, Structural, Clone, Copy, Debug)]
pub enum IdentityQuery {
    OsInfo,
    Os,
}

pub open spec fn query_cmd(q: IdentityQuery) -> CommandModel {
    match q {
        IdentityQuery::OsInfo => osinfo_cmd(),
        IdentityQuery::Os => os_cmd(),
    }
}

/// What an identity lookup does next.
pub enum IdentityStep {
    /// The lookup is over; `None` means the identity is unknown.
    Done(Option<String>),
    /// Send this query's command and hand its outcome to `on_reply`.
    Query(IdentityQuery, Command),
}

pub enum IdentityAction {
    Done(Option<Seq<char>>),
    Query(IdentityQuery, CommandModel),
}

pub open spec fn identity_step_model(s: IdentityStep) -> IdentityAction {
    match s {
        IdentityStep::Done(Some(v)) => IdentityAction::Done(Some(v@)),
        IdentityStep::Done(None) => IdentityAction::Done(None),
        IdentityStep::Query(q, c) => IdentityAction::Query(q, c@),
    }
}

/// The identity that one query's outcome gives; a transport failure gives none.
pub open spec fn query_result(q: IdentityQuery, ev: Event) -> Option<Seq<char>> {
    match ev {
        Err(_) => None,
        Ok(r) => match q {
            IdentityQuery::OsInfo => osinfo_identity(r),
            IdentityQuery::Os => os_identity(r),
        },
    }
}

/// Cached OS identities of guests.
pub struct ProbeManager {
    uri: String,
    timeout_secs: u64,
    cache_ttl_ms: u64,
    cache: Vec<CacheEntry>,
}

impl ProbeManager {
    pub closed spec fn entries(&self) -> Seq<CacheEntry> {
        self.cache@
    }

    pub closed spec fn ttl(&self) -> u64 {
        self.cache_ttl_ms
    }

    pub closed spec fn spec_timeout_secs(&self) -> u64 {
        self.timeout_secs
    }

    pub closed spec fn spec_uri(&self) -> Seq<char> {
        self.uri@
    }

    /// A manager with an empty cache. `timeout_secs` bounds each identity
    /// query; values are served from the cache for `cache_ttl_ms`.
    pub fn new(uri: String, timeout_secs: u64, cache_ttl_ms: u64) -> (r: ProbeManager)
        ensures
            r.entries() == Seq::<CacheEntry>::empty(),
            r.ttl() == cache_ttl_ms,
            r.spec_timeout_secs() == timeout_secs,
            r.spec_uri() == uri@,
    {
        ProbeManager { uri, timeout_secs, cache_ttl_ms, cache: Vec::new() }
    }

    pub fn uri(&self) -> (r: &str)
        ensures
            r@ == self.spec_uri(),
    {
        self.uri.as_str()
    }

    /// Timeout, in seconds, that each identity query is sent with.
    pub fn timeout_secs(&self) -> (r: u64)
        ensures
            r == self.spec_timeout_secs(),
    {
        self.timeout_secs
    }

    fn position(&self, vm: &str) -> (r: Option<usize>)
        ensures
            match r {
                Some(i) => i < self.entries().len() && self.entries()[i as int].subject@ == vm@
                    && cache_lookup(self.entries(), vm@) == Some(
                    (self.entries()[i as int].value@, self.entries()[i as int].recorded_at),
                ) && forall|j: int| 0 <= j < i ==> #[trigger] self.entries()[j].subject@ != vm@,
                None => cache_lookup(self.entries(), vm@) is None,
            },
    {
        let k = vm.to_string();
        let es = &self.cache;
        let mut i: usize = 0;
        assert(es@.subrange(0, es@.len() as int) =~= es@);
        while i < es.len()
            invariant
                i <= es@.len(),
                k@ == vm@,
                es@ == self.entries(),
                cache_lookup(es@, vm@) == cache_lookup(es@.subrange(i as int, es@.len() as int), vm@),
                forall|j: int| 0 <= j < i ==> #[trigger] es@[j].subject@ != vm@,
            decreases es.len() - i,
        {
            let ghost rest = es@.subrange(i as int, es@.len() as int);
            assert(rest.drop_first() =~= es@.subrange(i + 1, es@.len() as int));
            if es[i].subject == k {
                return Some(i);
            }
            i = i + 1;
        }
        assert(es@.subrange(i as int, es@.len() as int).len() == 0);
        None
    }

    /// Starts an identity lookup for `vm` at clock reading `now`: a fresh
    /// cached value ends it at once, else the first query is to be sent.
    pub fn get_os(&self, vm: &str, now: u64) -> (r: IdentityStep)
        ensures
            identity_step_model(r) == match fresh_value(self.entries(), self.ttl(), vm@, now) {
                Some(v) => IdentityAction::Done(Some(v)),
                None => IdentityAction::Query(IdentityQuery::OsInfo, osinfo_cmd()),
            },
    {
        match self.position(vm) {
            Some(i) => {
                let t = self.cache[i].recorded_at;
                let elapsed = if now >= t { now - t } else { 0 };
                if elapsed < self.cache_ttl_ms {
                    return IdentityStep::Done(Some(self.cache[i].value.clone()));
                }
            },
            None => {},
        }
        IdentityStep::Query(IdentityQuery::OsInfo, osinfo_command())
    }

    /// Takes the outcome of `query` for `vm`, received at clock reading
    /// `now`. An identity is recorded and ends the lookup; none leads from
    /// the richer query to the older one, and after that ends the lookup
    /// with `None`, leaving the cache as it was.
    pub fn on_reply(&mut self, vm: &str, query: IdentityQuery, event: Event, now: u64) -> (r: IdentityStep)
        ensures
            final(self).ttl() == old(self).ttl(),
            final(self).spec_timeout_secs() == old(self).spec_timeout_secs(),
            final(self).spec_uri() == old(self).spec_uri(),
            match query_result(query, event) {
                Some(v) => {
                    &&& identity_step_model(r) == IdentityAction::Done(Some(v))
                    &&& forall|k: Seq<char>| #[trigger] cache_lookup(final(self).entries(), k)
                        == if k == vm@ { Some((v, now)) } else { cache_lookup(old(self).entries(), k) }
                },
                None => {
                    &&& identity_step_model(r) == match query {
                        IdentityQuery::OsInfo => IdentityAction::Query(IdentityQuery::Os, os_cmd()),
                        IdentityQuery::Os => IdentityAction::Done(None),
                    }
                    &&& final(self).entries() == old(self).entries()
                },
            },
    {
        let found = match &event {
            Err(_) => None,
            Ok(reply) => match query {
                IdentityQuery::OsInfo => identity_from_osinfo(reply),
                IdentityQuery::Os => identity_from_os(reply),
            },
        };
        match found {
            Some(v) => {
                self.store_cache(vm, &v, now);
                IdentityStep::Done(Some(v))
            },
            None => match query {
                IdentityQuery::OsInfo => IdentityStep::Query(IdentityQuery::Os, os_command()),
                IdentityQuery::Os => IdentityStep::Done(None),
            },
        }
    }

    fn store_cache(&mut self, vm: &str, val: &String, now: u64)
        ensures
            final(self).ttl() == old(self).ttl(),
            final(self).spec_timeout_secs() == old(self).spec_timeout_secs(),
            final(self).spec_uri() == old(self).spec_uri(),
            forall|k: Seq<char>| #[trigger] cache_lookup(final(self).entries(), k)
                == if k == vm@ { Some((val@, now)) } else { cache_lookup(old(self).entries(), k) },
    {
        let entry = CacheEntry { subject: vm.to_string(), value: val.clone(), recorded_at: now };
        let ghost old_es = self.cache@;
        match self.position(vm) {
            Some(i) => {
                self.cache.set(i, entry);
                proof {
                    lemma_lookup_after_update(old_es, i as int, entry);
                }
            },
            None => {
                self.cache.push(entry);
                proof {
                    lemma_lookup_after_push(old_es, entry);
                }
            },
        }
    }
}

proof fn lemma_lookup_after_update(es: Seq<CacheEntry>, i: int, e: CacheEntry)
    requires
        0 <= i < es.len(),
        es[i].subject@ == e.subject@,
        forall|j: int| 0 <= j < i ==> #[trigger] es[j].subject@ != e.subject@,
    ensures
        forall|k: Seq<char>| #[trigger] cache_lookup(es.update(i, e), k)
            == if k == e.subject@ { Some((e.value@, e.recorded_at)) } else { cache_lookup(es, k) },
    decreases i,
{
    assert forall|k: Seq<char>| #[trigger] cache_lookup(es.update(i, e), k)
        == if k == e.subject@ { Some((e.value@, e.recorded_at)) } else { cache_lookup(es, k) } by {
        if i > 0 {
            let tail = es.drop_first();
            assert forall|j: int| 0 <= j < i - 1 implies #[trigger] tail[j].subject@ != e.subject@ by {
                assert(es[j + 1].subject@ != e.subject@);
            }
            lemma_lookup_after_update(tail, i - 1, e);
            assert(es.update(i, e).drop_first() =~= tail.update(i - 1, e));
            assert(cache_lookup(tail.update(i - 1, e), k) == if k == e.subject@ {
                Some((e.value@, e.recorded_at))
            } else {
                cache_lookup(tail, k)
            });
        } else {
            assert(es.update(i, e).drop_first() =~= es.drop_first());
        }
    }
}

proof fn lemma_lookup_after_push(es: Seq<CacheEntry>, e: CacheEntry)
    requires
        cache_lookup(es, e.subject@) is None,
    ensures
        forall|k: Seq<char>| #[trigger] cache_lookup(es.push(e), k)
            == if k == e.subject@ { Some((e.value@, e.recorded_at)) } else { cache_lookup(es, k) },
    decreases es.len(),
{
    assert forall|k: Seq<char>| #[trigger] cache_lookup(es.push(e), k)
        == if k == e.subject@ { Some((e.value@, e.recorded_at)) } else { cache_lookup(es, k) } by {
        if es.len() > 0 {
            lemma_lookup_after_push(es.drop_first(), e);
            assert(es.push(e).drop_first() =~= es.drop_first().push(e));
            assert(cache_lookup(es.drop_first().push(e), k) == if k == e.subject@ {
                Some((e.value@, e.recorded_at))
            } else {
                cache_lookup(es.drop_first(), k)
            });
        } else {
            assert(es.push(e).drop_first() =~= es);
        }
    }
}

/// A value recorded at `t` is served from the cache while less than `ttl`
/// has passed since, and is queried for again once `ttl` has passed.
pub proof fn lemma_cache_freshness(m: ProbeManager, recorded: ProbeManager, vm: Seq<char>, v: Seq<char>, t: u64, now: u64)
    requires
        recorded.ttl() == m.ttl(),
        forall|k: Seq<char>| #[trigger] cache_lookup(recorded.entries(), k)
            == if k == vm { Some((v, t)) } else { cache_lookup(m.entries(), k) },
    ensures
        fresh_value(recorded.entries(), recorded.ttl(), vm, now)
            == if age(now, t) < m.ttl() { Some(v) } else { None },
{
    assert(cache_lookup(recorded.entries(), vm) == Some((v, t)));
}

/// An entry that is stale (or absent) at `then` stays so at every later
/// clock reading while the cache is unchanged, so each later lookup queries
/// the guest again.
pub proof fn lemma_stale_stays_stale(m: ProbeManager, vm: Seq<char>, then: u64, now: u64)
    requires
        fresh_value(m.entries(), m.ttl(), vm, then) is None,
        then <= now,
    ensures
        fresh_value(m.entries(), m.ttl(), vm, now) is None,
{
}

} // verus!
