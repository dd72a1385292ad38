//! Name resolution decisions: the A record chosen from a DNS-over-HTTPS
//! answer, and a bounded cache of answers that expire after a time to live.
use vstd::prelude::*;
use crate::text::push_str;

verus! {

/// One record of a DNS-over-HTTPS JSON answer.
#[derive(Debug, Clone, PartialEq, Eq)]
pub struct DnsAnswer {
    /// The record type; 1 is an A (IPv4) record.
    pub record_type: u16,
    pub data: String,
}

/// Whether `r` is the data of the first A record of `v`, or `None` when `v`
/// holds no A record.
pub open spec fn is_first_a_record(v: Seq<DnsAnswer>, r: Option<String>) -> bool {
    match r {
        Some(ip) => exists|i: int|
            0 <= i < v.len() && v[i].record_type == 1 && ip@ == v[i].data@ && (forall|j: int|
                0 <= j < i ==> v[j].record_type != 1),
        None => forall|i: int| 0 <= i < v.len() ==> v[i].record_type != 1,
    }
}

fn first_a_in(v: &Vec<DnsAnswer>) -> (r: Option<String>)
    ensures
        is_first_a_record(v@, r),
{
    let n = v.len();
    let mut i: usize = 0;
    while i < n
        invariant
            n == v@.len(),
            i <= n,
            forall|j: int| 0 <= j < i ==> v@[j].record_type != 1,
        decreases n - i,
    {
        if v[i].record_type == 1 {
            let ip = v[i].data.clone();
            assert(0 <= i < v@.len() && v@[i as int].record_type == 1 && ip@ == v@[i as int].data@
                && (forall|j: int| 0 <= j < i ==> v@[j].record_type != 1));
            return Some(ip);
        }
        i += 1;
    }
    None
}

/// The data of the first A record of an answer section, if any.
pub fn first_a_record(answer: &Option<Vec<DnsAnswer>>) -> (r: Option<String>)
    ensures
        answer is None ==> r is None,
        answer matches Some(v) ==> is_first_a_record(v@, r),
{
    match answer {
        None => None,
        Some(v) => first_a_in(v),
    }
}

/// What a resolver does next.
#[derive(Debug, Clone, PartialEq, Eq)]
pub enum ResolveAction {
    /// The host's address is known.
    Answer(String),
    /// Ask DNS-over-HTTPS for the A record, at this address.
    QueryDoh(String),
    /// Ask the system resolver.
    QuerySystem,
}

/// The DNS-over-HTTPS query address for a host's A record.
pub open spec fn doh_query_url(host: Seq<char>) -> Seq<char> {
    "https://dns.google/resolve?name="@ + host + "&type=A"@
}

/// The next step of resolving a host: an IP literal answers itself;
/// otherwise DNS-over-HTTPS is asked first (`doh` is `None` before it was
/// asked, `Some(None)` when it failed, `Some(Some(ip))` when it answered),
/// and the system resolver only when DNS-over-HTTPS failed.
pub fn resolve_step(host: &str, host_is_ip: bool, doh: Option<Option<String>>) -> (r: ResolveAction)
    ensures
        host_is_ip ==> (r matches ResolveAction::Answer(a) && a@ == host@),
        !host_is_ip ==> match doh {
            None => r matches ResolveAction::QueryDoh(url) && url@ == doh_query_url(host@),
            Some(Some(ip)) => r matches ResolveAction::Answer(a) && a@ == ip@,
            Some(None) => r == ResolveAction::QuerySystem,
        },
{
    if host_is_ip {
        return ResolveAction::Answer(host.to_owned());
    }
    match doh {
        None => {
            let mut url = String::new();
            push_str(&mut url, "https://dns.google/resolve?name=");
            push_str(&mut url, host);
            push_str(&mut url, "&type=A");
            ResolveAction::QueryDoh(url)
        },
        Some(Some(ip)) => ResolveAction::Answer(ip),
        Some(None) => ResolveAction::QuerySystem,
    }
}

/// A cached answer.
#[derive(Debug, Clone)]
struct CacheEntry {
    host: String,
    ip: String,
    expires_at: u64,
}

/// A bounded cache of resolved addresses. Times are plain numbers on one
/// monotonic clock (for example milliseconds since the process started).
#[derive(Debug, Clone)]
pub struct DnsCache {
    ttl: u64,
    max_entries: usize,
    entries: Vec<CacheEntry>,
}

/// The content of a cache: each host's address and expiry time.
pub type CacheModel = Map<Seq<char>, (Seq<char>, u64)>;

/// What a lookup at time `now` finds: the address of an entry that has not
/// expired yet.
pub open spec fn spec_cached(m: CacheModel, host: Seq<char>, now: u64) -> Option<Seq<char>> {
    if m.contains_key(host) && m[host].1 > now {
        Some(m[host].0)
    } else {
        None
    }
}

/// Whether `victim` is an entry of `m` that expires no later than any other.
pub open spec fn earliest_expiry(m: CacheModel, victim: Seq<char>) -> bool {
    &&& m.contains_key(victim)
    &&& forall|k: Seq<char>| #[trigger] m.contains_key(k) ==> m[victim].1 <= m[k].1
}

/// How an insertion changes the cache: nothing when caching is off (zero
/// time to live or zero capacity); otherwise the host maps to the address,
/// expiring `ttl` after `now`, and when the cache is full and the host is
/// new, one entry with the earliest expiry makes room.
pub open spec fn spec_inserted(
    before: CacheModel,
    count: nat,
    ttl: u64,
    max_entries: usize,
    after: CacheModel,
    host: Seq<char>,
    ip: Seq<char>,
    now: u64,
) -> bool {
    if ttl == 0 || max_entries == 0 {
        after == before
    } else if count >= max_entries && !before.contains_key(host) {
        exists|victim: Seq<char>|
            earliest_expiry(before, victim) && after == before.remove(victim).insert(
                host,
                (ip, (now + ttl) as u64),
            )
    } else {
        after == before.insert(host, (ip, (now + ttl) as u64))
    }
}

impl DnsCache {
    spec fn host_at(&self, i: int) -> Seq<char> {
        self.entries@[i].host@
    }

    /// The content of the cache.
    pub closed spec fn view(&self) -> CacheModel {
        Map::new(
            |h: Seq<char>| exists|i: int| 0 <= i < self.entries@.len() && self.host_at(i) == h,
            |h: Seq<char>|
                {
                    let i = choose|i: int| 0 <= i < self.entries@.len() && self.host_at(i) == h;
                    (self.entries@[i].ip@, self.entries@[i].expires_at)
                },
        )
    }

    /// The number of entries.
    pub closed spec fn count(&self) -> nat {
        self.entries@.len()
    }

    /// The time to live of new entries.
    pub closed spec fn spec_ttl(&self) -> u64 {
        self.ttl
    }

    /// The most entries the cache holds.
    pub closed spec fn spec_max_entries(&self) -> usize {
        self.max_entries
    }

    /// No host occurs twice, and the cache holds at most `max_entries` entries.
    pub closed spec fn wf(&self) -> bool {
        &&& self.entries@.len() <= self.max_entries
        &&& forall|i: int, j: int|
            0 <= i < self.entries@.len() && 0 <= j < self.entries@.len() && i != j
                ==> self.host_at(i) != self.host_at(j)
    }

    proof fn lemma_view_at(&self, i: int)
        requires
            self.wf(),
            0 <= i < self.entries@.len(),
        ensures
            self@.contains_key(self.host_at(i)),
            self@[self.host_at(i)] == (self.entries@[i].ip@, self.entries@[i].expires_at),
    {
        let h = self.host_at(i);
        assert(self@.dom().contains(h));
        let k = choose|k: int| 0 <= k < self.entries@.len() && self.host_at(k) == h;
        assert(k == i);
    }

    proof fn lemma_view_count(&self)
        requires
            self.wf(),
        ensures
            self@.dom().finite(),
            self@.dom().len() == self.count(),
    {
        let hosts = Seq::new(self.entries@.len(), |i: int| self.host_at(i));
        assert(hosts.no_duplicates());
        hosts.unique_seq_to_set();
        assert(self@.dom() == hosts.to_set()) by {
            assert forall|h: Seq<char>| self@.dom().contains(h) implies hosts.to_set().contains(h) by {
                let i = choose|i: int| 0 <= i < self.entries@.len() && self.host_at(i) == h;
                assert(hosts[i] == h);
            }
            assert forall|h: Seq<char>| hosts.to_set().contains(h) implies self@.dom().contains(h) by {
                let i = choose|i: int| 0 <= i < hosts.len() && hosts[i] == h;
                assert(self.host_at(i) == h);
            }
        }
    }

    /// An empty cache whose entries live for `ttl` and which holds at most
    /// `max_entries` of them.
    pub fn new(ttl: u64, max_entries: usize) -> (c: DnsCache)
        ensures
            c.wf(),
            c@ == CacheModel::empty(),
            c.count() == 0,
            c.spec_ttl() == ttl,
            c.spec_max_entries() == max_entries,
    {
        let c = DnsCache { ttl, max_entries, entries: Vec::new() };
        assert(c@ == CacheModel::empty());
        c
    }

    /// The time to live of new entries.
    pub fn ttl(&self) -> (t: u64)
        ensures
            t == self.spec_ttl(),
    {
        self.ttl
    }

    /// The most entries the cache holds.
    pub fn max_entries(&self) -> (m: usize)
        ensures
            m == self.spec_max_entries(),
    {
        self.max_entries
    }

    /// The number of entries.
    pub fn len(&self) -> (n: usize)
        ensures
            n == self.count(),
    {
        self.entries.len()
    }

    fn find(&self, host: &String) -> (r: Option<usize>)
        requires
            self.wf(),
        ensures
            match r {
                Some(i) => i < self.entries@.len() && self.host_at(i as int) == host@,
                None => !self@.contains_key(host@),
            },
    {
        let n = self.entries.len();
        let mut i: usize = 0;
        while i < n
            invariant
                n == self.entries@.len(),
                i <= n,
                forall|j: int| 0 <= j < i ==> self.host_at(j) != host@,
            decreases n - i,
        {
            if self.entries[i].host == *host {
                return Some(i);
            }
            i += 1;
        }
        None
    }

    /// The cached address of `host`, if it has not expired at `now`.
    pub fn cached(&self, host: &str, now: u64) -> (r: Option<String>)
        requires
            self.wf(),
        ensures
            match r {
                Some(ip) => spec_cached(self@, host@, now) == Some(ip@),
                None => spec_cached(self@, host@, now) is None,
            },
    {
        let key = host.to_owned();
        match self.find(&key) {
            Some(i) => {
                proof {
                    self.lemma_view_at(i as int);
                }
                if self.entries[i].expires_at > now {
                    Some(self.entries[i].ip.clone())
                } else {
                    None
                }
            },
            None => None,
        }
    }

    /// The index of an entry with the earliest expiry.
    fn earliest(&self) -> (m: usize)
        requires
            self.wf(),
            self.entries@.len() > 0,
        ensures
            m < self.entries@.len(),
            forall|j: int| 0 <= j < self.entries@.len() ==> self.entries@[m as int].expires_at
                <= #[trigger] self.entries@[j].expires_at,
    {
        let n = self.entries.len();
        let mut m: usize = 0;
        let mut i: usize = 1;
        while i < n
            invariant
                n == self.entries@.len(),
                1 <= i <= n,
                m < i,
                forall|j: int| 0 <= j < i ==> self.entries@[m as int].expires_at
                    <= #[trigger] self.entries@[j].expires_at,
            decreases n - i,
        {
            if self.entries[i].expires_at < self.entries[m].expires_at {
                m = i;
            }
            i += 1;
        }
        m
    }

    /// Caches `ip` for `host`, expiring `ttl` after `now`.
    pub fn insert(&mut self, host: &str, ip: String, now: u64)
        requires
            old(self).wf(),
            old(self).spec_ttl() == 0 || old(self).spec_max_entries() == 0 || now + old(self).spec_ttl()
                <= u64::MAX,
        ensures
            final(self).wf(),
            final(self).count() <= final(self).spec_max_entries(),
            final(self).spec_ttl() == old(self).spec_ttl(),
            final(self).spec_max_entries() == old(self).spec_max_entries(),
            spec_inserted(
                old(self)@,
                old(self).count(),
                old(self).spec_ttl(),
                old(self).spec_max_entries(),
                final(self)@,
                host@,
                ip@,
                now,
            ),
    {
        if self.ttl == 0 || self.max_entries == 0 {
            return;
        }
        let key = host.to_owned();
        let expires_at = now + self.ttl;
        let ghost before = self@;
        let entry = CacheEntry { host: key.clone(), ip, expires_at };
        match self.find(&key) {
            Some(i) => {
                self.entries.set(i, entry);
                proof {
                    assert forall|a: int| 0 <= a < self.entries@.len() implies self.host_at(a)
                        == old(self).host_at(a) by {}
                    assert(self.wf());
                    let after = self@;
                    let target = before.insert(host@, (entry.ip@, expires_at));
                    assert forall|h: Seq<char>| after.contains_key(h) <==> target.contains_key(h) by {
                        if target.contains_key(h) && h != host@ {
                            let k = choose|k: int| 0 <= k < old(self).entries@.len() && old(self).host_at(k) == h;
                            assert(self.host_at(k) == h);
                        }
                        if after.contains_key(h) {
                            let k = choose|k: int| 0 <= k < self.entries@.len() && self.host_at(k) == h;
                            if k != i {
                                assert(old(self).host_at(k) == h);
                            }
                        }
                        if h == host@ {
                            assert(self.host_at(i as int) == h);
                        }
                    }
                    assert forall|h: Seq<char>| after.contains_key(h) implies after[h] == target[h] by {
                        let k = choose|k: int| 0 <= k < self.entries@.len() && self.host_at(k) == h;
                        self.lemma_view_at(k);
                        if k != i as int {
                            old(self).lemma_view_at(k);
                        }
                    }
                    assert(after == target);
                }
            },
            None => {
                if self.entries.len() >= self.max_entries {
                    let m = self.earliest();
                    proof {
                        old(self).lemma_view_at(m as int);
                        let victim = old(self).host_at(m as int);
                        assert forall|k: Seq<char>| #[trigger] before.contains_key(k) implies before[victim].1
                            <= before[k].1 by {
                            let j = choose|j: int| 0 <= j < old(self).entries@.len() && old(self).host_at(j) == k;
                            old(self).lemma_view_at(j);
                        }
                    }
                    let ghost victim = old(self).host_at(m as int);
                    self.entries.remove(m);
                    self.entries.push(entry);
                    proof {
                        let after = self@;
                        let target = before.remove(victim).insert(host@, (entry.ip@, expires_at));
                        let n = old(self).entries@.len();
                        assert forall|a: int| 0 <= a < self.entries@.len() - 1 implies self.host_at(a)
                            == old(self).host_at(if a < m { a } else { a + 1 }) by {}
                        assert forall|h: Seq<char>| after.contains_key(h) <==> target.contains_key(h) by {
                            if after.contains_key(h) {
                                let k = choose|k: int| 0 <= k < self.entries@.len() && self.host_at(k) == h;
                                if k < self.entries@.len() - 1 {
                                    let ok = if k < m { k } else { k + 1 };
                                    assert(old(self).host_at(ok) == h);
                                    assert(old(self).host_at(ok) != old(self).host_at(m as int));
                                }
                            }
                            if target.contains_key(h) {
                                if h == host@ {
                                    assert(self.host_at(self.entries@.len() - 1) == h);
                                } else {
                                    let k = choose|k: int| 0 <= k < n && old(self).host_at(k) == h;
                                    assert(k != m);
                                    let nk = if k < m { k } else { k - 1 };
                                    assert(self.host_at(nk) == h);
                                }
                            }
                        }
                        assert(self.wf()) by {
                            assert forall|a: int, b: int|
                                0 <= a < self.entries@.len() && 0 <= b < self.entries@.len() && a != b
                                    implies self.host_at(a) != self.host_at(b) by {
                                let last = self.entries@.len() - 1;
                                if a != last && b != last {
                                    let oa = if a < m { a } else { a + 1 };
                                    let ob = if b < m { b } else { b + 1 };
                                    assert(old(self).host_at(oa) != old(self).host_at(ob));
                                } else if a == last {
                                    let ob = if b < m { b } else { b + 1 };
                                    assert(old(self).host_at(ob) != host@) by {
                                        old(self).lemma_view_at(ob);
                                    }
                                } else {
                                    let oa = if a < m { a } else { a + 1 };
                                    assert(old(self).host_at(oa) != host@) by {
                                        old(self).lemma_view_at(oa);
                                    }
                                }
                            }
                        }
                        assert forall|h: Seq<char>| after.contains_key(h) implies after[h] == target[h] by {
                            let k = choose|k: int| 0 <= k < self.entries@.len() && self.host_at(k) == h;
                            self.lemma_view_at(k);
                            if k < self.entries@.len() - 1 {
                                let ok = if k < m { k } else { k + 1 };
                                old(self).lemma_view_at(ok);
                            }
                        }
                        assert(after == target);
                        assert(earliest_expiry(before, victim));
                    }
                } else {
                    self.entries.push(entry);
                    proof {
                        let after = self@;
                        let target = before.insert(host@, (entry.ip@, expires_at));
                        let n = old(self).entries@.len();
                        assert forall|h: Seq<char>| after.contains_key(h) <==> target.contains_key(h) by {
                            if after.contains_key(h) {
                                let k = choose|k: int| 0 <= k < self.entries@.len() && self.host_at(k) == h;
                                if k < n {
                                    assert(old(self).host_at(k) == h);
                                }
                            }
                            if target.contains_key(h) {
                                if h == host@ {
                                    assert(self.host_at(n as int) == h);
                                } else {
                                    let k = choose|k: int| 0 <= k < n && old(self).host_at(k) == h;
                                    assert(self.host_at(k) == h);
                                }
                            }
                        }
                        assert(self.wf()) by {
                            assert forall|a: int, b: int|
                                0 <= a < self.entries@.len() && 0 <= b < self.entries@.len() && a != b
                                    implies self.host_at(a) != self.host_at(b) by {
                                assert(self.host_at(n as int) == host@);
                                if a == n as int {
                                    assert(self.host_at(b) == old(self).host_at(b));
                                    assert(old(self).host_at(b) != host@) by {
                                        old(self).lemma_view_at(b);
                                    }
                                } else if b == n as int {
                                    assert(self.host_at(a) == old(self).host_at(a));
                                    assert(old(self).host_at(a) != host@) by {
                                        old(self).lemma_view_at(a);
                                    }
                                } else {
                                    assert(self.host_at(a) == old(self).host_at(a));
                                    assert(self.host_at(b) == old(self).host_at(b));
                                }
                            }
                        }
                        assert forall|h: Seq<char>| after.contains_key(h) implies after[h] == target[h] by {
                            let k = choose|k: int| 0 <= k < self.entries@.len() && self.host_at(k) == h;
                            self.lemma_view_at(k);
                            if k < n {
                                old(self).lemma_view_at(k);
                            }
                        }
                        assert(after == target);
                        old(self).lemma_view_count();
                    }
                }
            },
        }
    }
}

/// A cache holds at most as many entries as its capacity.
pub proof fn law_cache_size_is_bounded(cache: DnsCache)
    requires
        cache.wf(),
    ensures
        cache.count() <= cache.spec_max_entries(),
        cache@.dom().finite(),
        cache@.dom().len() == cache.count(),
{
    cache.lemma_view_count();
}

/// An answer just cached is served for the host until its time to live has
/// passed (with caching on: a positive time to live and capacity).
pub proof fn law_cached_answer_is_served_within_ttl(
    before: DnsCache,
    after: CacheModel,
    host: Seq<char>,
    ip: Seq<char>,
    now: u64,
    later: u64,
)
    requires
        before.spec_ttl() > 0,
        before.spec_max_entries() > 0,
        now + before.spec_ttl() <= u64::MAX,
        spec_inserted(before@, before.count(), before.spec_ttl(), before.spec_max_entries(), after, host, ip, now),
        now <= later < now + before.spec_ttl(),
    ensures
        spec_cached(after, host, later) == Some(ip),
{
}

/// Once its time to live has passed, an answer cached at `now` is no longer served.
pub proof fn law_cached_answer_expires(
    before: DnsCache,
    after: CacheModel,
    host: Seq<char>,
    ip: Seq<char>,
    now: u64,
    later: u64,
)
    requires
        before.spec_ttl() > 0,
        before.spec_max_entries() > 0,
        now + before.spec_ttl() <= u64::MAX,
        spec_inserted(before@, before.count(), before.spec_ttl(), before.spec_max_entries(), after, host, ip, now),
        later >= now + before.spec_ttl(),
    ensures
        spec_cached(after, host, later) is None,
{
}

/// Caching another host never changes the answer served for a host, except
/// that the host's entry may be the one evicted to make room.
pub proof fn law_insert_leaves_other_hosts(
    before: DnsCache,
    after: CacheModel,
    host: Seq<char>,
    ip: Seq<char>,
    now: u64,
    other: Seq<char>,
    at: u64,
)
    requires
        before.spec_ttl() == 0 || before.spec_max_entries() == 0 || now + before.spec_ttl() <= u64::MAX,
        spec_inserted(before@, before.count(), before.spec_ttl(), before.spec_max_entries(), after, host, ip, now),
        other != host,
    ensures
        spec_cached(after, other, at) == spec_cached(before@, other, at) || spec_cached(after, other, at) is None,
{
}

/// With caching off (a zero time to live or zero capacity) a cache stays as it is.
pub proof fn law_disabled_cache_keeps_nothing_new(
    before: DnsCache,
    after: CacheModel,
    host: Seq<char>,
    ip: Seq<char>,
    now: u64,
)
    requires
        before.spec_ttl() == 0 || before.spec_max_entries() == 0,
        spec_inserted(before@, before.count(), before.spec_ttl(), before.spec_max_entries(), after, host, ip, now),
    ensures
        after == before@,
{
}

} // verus!
