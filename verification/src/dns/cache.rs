//! The cache of DNS responses.
use vstd::prelude::*;
use vstd::slice::*;
use vstd::string::*;

use crate::dns::types::DnsResponse;
use crate::lru_cache;
use crate::lru_cache::{
    after_put, entry_of, has_key, key_index, keyed_entries, later, without_key, CacheSlot, Clock, Entry, LruStore,
    NANOS_PER_SEC,
};
use crate::text;
use crate::text::{decimal, lower};

verus! {

/// The least number of seconds for which a response is cached.
pub const MIN_TTL: u64 = 60;

/// The greatest number of seconds for which a response is cached.
pub const MAX_TTL: u64 = 3600;

/// The value between two bounds that is nearest to `x`.
pub open spec fn clamped(x: u64, lo: u64, hi: u64) -> u64 {
    if x < lo {
        lo
    } else if x > hi {
        hi
    } else {
        x
    }
}

/// Bounds for the lifetime of cached responses.
#[derive(Debug, Clone, Copy, PartialEq, Eq, Structural)]
pub struct TtlBounds {
    pub min_secs: u64,
    pub max_secs: u64,
}

/// Bounds within the permitted range, the upper not below the lower.
pub open spec fn normal_bounds(min_ttl: u64, max_ttl: u64) -> TtlBounds {
    let lo = clamped(min_ttl, MIN_TTL, MAX_TTL);
    let hi = clamped(max_ttl, MIN_TTL, MAX_TTL);
    TtlBounds {
        min_secs: lo,
        max_secs: if hi < lo {
            lo
        } else {
            hi
        },
    }
}

fn clamp(x: u64, lo: u64, hi: u64) -> (r: u64)
    ensures
        r == clamped(x, lo, hi),
{
    if x < lo {
        lo
    } else if x > hi {
        hi
    } else {
        x
    }
}

/// Brings bounds into the permitted range.
pub fn normalize_ttl_bounds(min_ttl: u64, max_ttl: u64) -> (r: TtlBounds)
    ensures
        r == normal_bounds(min_ttl, max_ttl),
        MIN_TTL <= r.min_secs <= r.max_secs <= MAX_TTL,
{
    let lo = clamp(min_ttl, MIN_TTL, MAX_TTL);
    let hi = clamp(max_ttl, MIN_TTL, MAX_TTL);
    TtlBounds {
        min_secs: lo,
        max_secs: if hi < lo {
            lo
        } else {
            hi
        },
    }
}

/// The key of a question: the name in lower case, a slash, and the type.
pub open spec fn question_key(name: Seq<char>, qtype: u16) -> Seq<char> {
    lower(name) + seq!['/'] + decimal(qtype as nat)
}

/// The response that an entry holds.
pub open spec fn holds(e: Entry, r: DnsResponse) -> bool {
    r.bytes@ == e.data && r.ttl == e.number
}

/// What a look-up at `now` answers.
pub open spec fn found_at(s: Seq<Entry>, key: Seq<char>, now: u64, r: Option<DnsResponse>) -> bool {
    if has_key(s, key) && now < s[key_index(s, key)].expires_at {
        r is Some && holds(s[key_index(s, key)], r->0)
    } else {
        r is None
    }
}

/// Whole seconds until `expires_at`, at most the largest number that fits.
pub open spec fn remaining_secs(expires_at: u64, now: u64) -> u32 {
    let secs = (expires_at - now) / NANOS_PER_SEC as int;
    if secs > u32::MAX {
        u32::MAX
    } else {
        secs as u32
    }
}

/// What a look-up at `now` answers, with the seconds that the response stays valid.
pub open spec fn found_remaining_at(s: Seq<Entry>, key: Seq<char>, now: u64, r: Option<(DnsResponse, u32)>) -> bool {
    if has_key(s, key) && now < s[key_index(s, key)].expires_at {
        let e = s[key_index(s, key)];
        match r {
            Some((response, secs)) => holds(e, response) && secs == remaining_secs(e.expires_at, now),
            None => false,
        }
    } else {
        r is None
    }
}

/// The entry for a response that is stored at `now`.
pub open spec fn response_entry(key: Seq<char>, response: DnsResponse, bounds: TtlBounds, now: u64) -> Entry {
    Entry {
        key,
        data: response.bytes@,
        number: response.ttl,
        expires_at: later(now, clamped(response.ttl as u64, bounds.min_secs, bounds.max_secs)),
    }
}

/// A cached response, and when it expires.
#[derive(Debug)]
pub struct CacheEntry {
    pub response: DnsResponse,
    pub expires_at: u64,
}

impl CacheEntry {
    /// Whether the response has expired at a given time.
    pub fn is_expired(&self, now: u64) -> (r: bool)
        ensures
            r == (now >= self.expires_at),
    {
        now >= self.expires_at
    }
}

/// The entry that a key leads to, as it is handed out.
pub open spec fn hands_out(s: Seq<Entry>, key: Seq<char>, r: Option<CacheEntry>) -> bool {
    match r {
        Some(c) => has_key(s, key) && holds(s[key_index(s, key)], c.response) && c.expires_at == s[key_index(
            s,
            key,
        )].expires_at,
        None => !has_key(s, key),
    }
}

/// A response cache with bounded size and lifetimes.
pub struct DnsCache {
    store: LruStore,
    bounds: TtlBounds,
    clock: Clock,
}

impl DnsCache {
    /// The cached responses, from the most to the least recently stored.
    pub closed spec fn entries(&self) -> Seq<Entry> {
        self.store@
    }

    /// How many responses fit.
    pub closed spec fn capacity(&self) -> nat {
        self.store.capacity()
    }

    /// The bounds for lifetimes.
    pub closed spec fn bounds(&self) -> TtlBounds {
        self.bounds
    }

    /// One response per question, within the capacity, and bounds within the
    /// permitted range.
    pub closed spec fn wf(&self) -> bool {
        self.store.wf() && MIN_TTL <= self.bounds.min_secs <= self.bounds.max_secs <= MAX_TTL
    }

    /// An empty cache; a capacity of zero counts as one.
    pub fn new(capacity: usize, min_ttl: u64, max_ttl: u64) -> (r: DnsCache)
        ensures
            r.wf(),
            r.entries().len() == 0,
            r.bounds() == normal_bounds(min_ttl, max_ttl),
            r.capacity() == (if capacity == 0 {
                1
            } else {
                capacity
            }),
    {
        let cap: usize = if capacity == 0 {
            1
        } else {
            capacity
        };
        DnsCache {
            store: LruStore::new(cap),
            bounds: normalize_ttl_bounds(min_ttl, max_ttl),
            clock: Clock::new(),
        }
    }

    /// The time by this cache's clock, in nanoseconds.
    pub fn now(&self) -> u64 {
        self.clock.now()
    }

    /// The key of a question.
    pub fn cache_key(name: &str, qtype: u16) -> (r: String)
        ensures
            r@ == question_key(name@, qtype),
    {
        let cs = text::chars_of(name);
        let mut key = text::lowered(cs.as_slice());
        key.push('/');
        text::push_decimal(&mut key, qtype as u64);
        assert(key@ =~= question_key(name@, qtype));
        key
    }

    /// What is cached for a question, expired or not.
    fn entry(&self, name: &str, qtype: u16) -> (r: Option<CacheEntry>)
        ensures
            hands_out(self.entries(), question_key(name@, qtype), r),
    {
        let key = Self::cache_key(name, qtype);
        match self.store.peek(key.as_str()) {
            Some(slot) => Some(
                CacheEntry {
                    response: DnsResponse { bytes: slice_to_vec(slot.data.as_slice()), ttl: slot.number },
                    expires_at: slot.expires_at,
                },
            ),
            None => None,
        }
    }

    /// The cached response to a question at a given time, if it has not expired.
    pub fn get_at(&self, name: &str, qtype: u16, now: u64) -> (r: Option<DnsResponse>)
        ensures
            found_at(self.entries(), question_key(name@, qtype), now, r),
    {
        match self.entry(name, qtype) {
            Some(e) => if e.is_expired(now) {
                None
            } else {
                Some(e.response)
            },
            None => None,
        }
    }

    /// The cached response to a question, if it has not expired.
    pub fn get(&self, name: &str, qtype: u16) -> (r: Option<DnsResponse>)
        ensures
            exists|now: u64| #[trigger] found_at(self.entries(), question_key(name@, qtype), now, r),
    {
        let now: u64 = self.clock.now();
        self.get_at(name, qtype, now)
    }

    /// The cached response to a question at a given time, and for how many whole
    /// seconds it stays valid.
    pub fn get_with_remaining_at(&self, name: &str, qtype: u16, now: u64) -> (r: Option<(DnsResponse, u32)>)
        ensures
            found_remaining_at(self.entries(), question_key(name@, qtype), now, r),
    {
        match self.entry(name, qtype) {
            Some(e) => if e.is_expired(now) {
                None
            } else {
                let secs: u64 = (e.expires_at - now) / NANOS_PER_SEC;
                let remaining: u32 = if secs > u32::MAX as u64 {
                    u32::MAX
                } else {
                    secs as u32
                };
                Some((e.response, remaining))
            },
            None => None,
        }
    }

    /// The cached response to a question, and for how many whole seconds it stays valid.
    pub fn get_with_remaining(&self, name: &str, qtype: u16) -> (r: Option<(DnsResponse, u32)>)
        ensures
            exists|now: u64| #[trigger] found_remaining_at(self.entries(), question_key(name@, qtype), now, r),
    {
        let now: u64 = self.clock.now();
        self.get_with_remaining_at(name, qtype, now)
    }

    /// Stores a response at a given time. Its lifetime is brought within the bounds.
    pub fn insert_at(&mut self, name: &str, qtype: u16, response: DnsResponse, now: u64)
        requires
            old(self).wf(),
        ensures
            final(self).wf(),
            final(self).capacity() == old(self).capacity(),
            final(self).bounds() == old(self).bounds(),
            final(self).entries() == after_put(
                old(self).entries(),
                old(self).capacity(),
                response_entry(question_key(name@, qtype), response, old(self).bounds(), now),
            ),
    {
        let key = Self::cache_key(name, qtype);
        let secs = clamp(response.ttl as u64, self.bounds.min_secs, self.bounds.max_secs);
        let ghost e = response_entry(key@, response, self.bounds, now);
        let slot = CacheSlot {
            data: response.bytes,
            number: response.ttl,
            expires_at: lru_cache::after_secs(now, secs),
        };
        assert(entry_of(key@, slot) == e);
        self.store.put(key, slot);
    }

    /// Stores a response.
    pub fn insert(&mut self, name: &str, qtype: u16, response: DnsResponse)
        requires
            old(self).wf(),
        ensures
            final(self).wf(),
            final(self).capacity() == old(self).capacity(),
            final(self).bounds() == old(self).bounds(),
            exists|now: u64|
                final(self).entries() == after_put(
                    old(self).entries(),
                    old(self).capacity(),
                    #[trigger] response_entry(question_key(name@, qtype), response, old(self).bounds(), now),
                ),
    {
        let now: u64 = self.clock.now();
        self.insert_at(name, qtype, response, now);
    }

    /// Sets the bounds for responses that are stored from now on.
    pub fn set_ttl_bounds(&mut self, min_ttl: u64, max_ttl: u64)
        requires
            old(self).wf(),
        ensures
            final(self).wf(),
            final(self).bounds() == normal_bounds(min_ttl, max_ttl),
            final(self).entries() == old(self).entries(),
            final(self).capacity() == old(self).capacity(),
    {
        self.bounds = normalize_ttl_bounds(min_ttl, max_ttl);
    }

    /// The least lifetime in seconds.
    pub fn min_ttl_secs(&self) -> (r: u64)
        ensures
            r == self.bounds().min_secs,
    {
        self.bounds.min_secs
    }

    /// The greatest lifetime in seconds.
    pub fn max_ttl_secs(&self) -> (r: u64)
        ensures
            r == self.bounds().max_secs,
    {
        self.bounds.max_secs
    }

    /// Removes the response to one question.
    pub fn evict(&mut self, name: &str, qtype: u16)
        requires
            old(self).wf(),
        ensures
            final(self).wf(),
            final(self).bounds() == old(self).bounds(),
            final(self).capacity() == old(self).capacity(),
            final(self).entries() == without_key(old(self).entries(), question_key(name@, qtype)),
    {
        let key = Self::cache_key(name, qtype);
        self.store.pop(key.as_str());
    }

    /// Removes the responses to all questions about one name, whatever their type.
    pub fn evict_domain(&mut self, name: &str)
        requires
            old(self).wf(),
        ensures
            final(self).wf(),
            final(self).bounds() == old(self).bounds(),
            final(self).capacity() == old(self).capacity(),
            final(self).entries() == old(self).entries().filter(|e: Entry| !about(e.key, name@)),
    {
        let cs = text::chars_of(name);
        let mut prefix = text::lowered(cs.as_slice());
        prefix.push('/');
        assert(prefix@ =~= lower(name@) + seq!['/']);
        let list = self.store.list();
        let ghost s = self.store@;
        let mut doomed: Vec<String> = Vec::new();
        let mut i: usize = 0;
        while i < list.len()
            invariant
                i <= list@.len(),
                s == keyed_entries(list@),
                prefix@ == lower(name@) + seq!['/'],
                forall|j: int| 0 <= j < i && about(s[j].key, name@) ==> named(doomed@, #[trigger] s[j].key),
                forall|j: int| 0 <= j < doomed@.len() ==> about((#[trigger] doomed@[j])@, name@),
            decreases list@.len() - i,
        {
            let k = text::chars_of(list[i].0.as_str());
            assert(s[i as int].key == list@[i as int].0@);
            let ghost before = doomed@;
            if text::starts_with(k.as_slice(), prefix.as_str()) {
                let key = list[i].0.clone();
                doomed.push(key);
                proof {
                    assert(doomed@[before.len() as int]@ == s[i as int].key);
                    assert(named(doomed@, s[i as int].key));
                    assert forall|j: int| 0 <= j < i && about(s[j].key, name@) implies named(
                        doomed@,
                        #[trigger] s[j].key,
                    ) by {
                        let n = choose|n: int| 0 <= n < before.len() && (#[trigger] before[n])@ == s[j].key;
                        assert(doomed@[n]@ == s[j].key);
                    }
                }
            }
            i = i + 1;
        }
        self.pop_all(&doomed);
        proof {
            let f = |e: Entry| !named(doomed@, e.key);
            let g = |e: Entry| !about(e.key, name@);
            assert forall|j: int| 0 <= j < s.len() implies f(#[trigger] s[j]) == g(s[j]) by {
                if named(doomed@, s[j].key) {
                    let n = choose|n: int| 0 <= n < doomed@.len() && (#[trigger] doomed@[n])@ == s[j].key;
                    assert(about(doomed@[n]@, name@));
                }
            }
            lemma_filter_same(s, f, g);
        }
    }

    /// Removes the entries for the given keys.
    fn pop_all(&mut self, keys: &Vec<String>)
        requires
            old(self).wf(),
        ensures
            final(self).wf(),
            final(self).bounds() == old(self).bounds(),
            final(self).capacity() == old(self).capacity(),
            final(self).entries() == old(self).entries().filter(|e: Entry| !named(keys@, e.key)),
    {
        let ghost s = self.store@;
        let mut i: usize = 0;
        proof {
            let f0 = |e: Entry| !named(keys@.take(0), e.key);
            lemma_filter_all(s, f0);
        }
        while i < keys.len()
            invariant
                i <= keys@.len(),
                self.store.wf(),
                self.bounds == old(self).bounds,
                self.store.capacity() == old(self).store.capacity(),
                self.store@ == s.filter(|e: Entry| !named(keys@.take(i as int), e.key)),
            decreases keys@.len() - i,
        {
            let ghost f = |e: Entry| !named(keys@.take(i as int), e.key);
            let ghost g = |e: Entry| !named(keys@.take(i + 1), e.key);
            let ghost k = keys@[i as int]@;
            self.store.pop(keys[i].as_str());
            proof {
                let h = |e: Entry| e.key != k;
                lemma_filter_twice(s, f, h);
                let both = |e: Entry| f(e) && h(e);
                assert forall|j: int| 0 <= j < s.len() implies both(#[trigger] s[j]) == g(s[j]) by {
                    lemma_named_take(keys@, i as int, s[j].key);
                }
                lemma_filter_same(s, both, g);
            }
            i = i + 1;
        }
        assert(keys@.take(keys@.len() as int) =~= keys@);
    }

    /// Removes the responses that have expired at a given time.
    pub fn evict_expired_at(&mut self, now: u64)
        requires
            old(self).wf(),
        ensures
            final(self).wf(),
            final(self).bounds() == old(self).bounds(),
            final(self).capacity() == old(self).capacity(),
            final(self).entries() == old(self).entries().filter(|e: Entry| now < e.expires_at),
    {
        let list = self.store.list();
        let ghost s = self.store@;
        let mut doomed: Vec<String> = Vec::new();
        let mut i: usize = 0;
        while i < list.len()
            invariant
                i <= list@.len(),
                s == keyed_entries(list@),
                forall|j: int| 0 <= j < i && now >= s[j].expires_at ==> named(doomed@, #[trigger] s[j].key),
                forall|n: int|
                    0 <= n < doomed@.len() ==> exists|j: int|
                        0 <= j < s.len() && (#[trigger] s[j]).key == (#[trigger] doomed@[n])@ && now >= s[j].expires_at,
            decreases list@.len() - i,
        {
            assert(s[i as int] == entry_of(list@[i as int].0@, list@[i as int].1));
            let ghost before = doomed@;
            if now >= list[i].1.expires_at {
                let key = list[i].0.clone();
                doomed.push(key);
                proof {
                    assert(doomed@[before.len() as int]@ == s[i as int].key);
                    assert(named(doomed@, s[i as int].key));
                    assert forall|j: int| 0 <= j < i && now >= s[j].expires_at implies named(
                        doomed@,
                        #[trigger] s[j].key,
                    ) by {
                        let n = choose|n: int| 0 <= n < before.len() && (#[trigger] before[n])@ == s[j].key;
                        assert(doomed@[n]@ == s[j].key);
                    }
                    assert forall|n: int| 0 <= n < doomed@.len() implies exists|j: int|
                        0 <= j < s.len() && (#[trigger] s[j]).key == (#[trigger] doomed@[n])@ && now
                            >= s[j].expires_at by {
                        if n < before.len() {
                            assert(doomed@[n] == before[n]);
                        } else {
                            assert(s[i as int].key == doomed@[n]@);
                        }
                    }
                }
            }
            i = i + 1;
        }
        self.pop_all(&doomed);
        proof {
            let f = |e: Entry| !named(doomed@, e.key);
            let g = |e: Entry| now < e.expires_at;
            assert forall|j: int| 0 <= j < s.len() implies f(#[trigger] s[j]) == g(s[j]) by {
                if named(doomed@, s[j].key) {
                    let n = choose|n: int| 0 <= n < doomed@.len() && (#[trigger] doomed@[n])@ == s[j].key;
                    let m = choose|m: int|
                        0 <= m < s.len() && (#[trigger] s[m]).key == doomed@[n]@ && now >= s[m].expires_at;
                    assert(m == j);
                }
            }
            lemma_filter_same(s, f, g);
        }
    }

    /// Removes the responses that have expired.
    pub fn evict_expired(&mut self)
        requires
            old(self).wf(),
        ensures
            final(self).wf(),
            final(self).bounds() == old(self).bounds(),
            final(self).capacity() == old(self).capacity(),
            exists|now: u64|
                final(self).entries() == #[trigger] unexpired(old(self).entries(), now),
    {
        let now: u64 = self.clock.now();
        self.evict_expired_at(now);
        assert(self.entries() == unexpired(old(self).entries(), now));
    }

    /// How many responses are cached.
    pub fn len(&self) -> (r: usize)
        ensures
            r == self.entries().len(),
    {
        self.store.len()
    }

    /// Whether nothing is cached.
    pub fn is_empty(&self) -> (r: bool)
        ensures
            r == (self.entries().len() == 0),
    {
        self.store.len() == 0
    }

    /// Removes everything.
    pub fn clear(&mut self)
        requires
            old(self).wf(),
        ensures
            final(self).wf(),
            final(self).entries().len() == 0,
            final(self).bounds() == old(self).bounds(),
            final(self).capacity() == old(self).capacity(),
    {
        self.store.clear();
    }

    /// The responses that have not expired at a given time, with their keys and
    /// expiry times.
    pub fn snapshot_at(&self, now: u64) -> (r: Vec<(String, DnsResponse, u64)>)
        ensures
            snapshot_entries(r@) == unexpired(self.entries(), now),
    {
        let list = self.store.list();
        let ghost s = self.store@;
        let ghost keep = |e: Entry| now < e.expires_at;
        let mut out: Vec<(String, DnsResponse, u64)> = Vec::new();
        let mut i: usize = 0;
        assert(s.take(0).filter(keep) =~= Seq::<Entry>::empty()) by {
            reveal(Seq::filter);
        }
        assert(snapshot_entries(out@) =~= Seq::<Entry>::empty());
        while i < list.len()
            invariant
                i <= list@.len(),
                s == keyed_entries(list@),
                keep == (|e: Entry| now < e.expires_at),
                snapshot_entries(out@) == s.take(i as int).filter(keep),
            decreases list@.len() - i,
        {
            let ghost before = out@;
            proof {
                assert(s[i as int] == entry_of(list@[i as int].0@, list@[i as int].1));
                assert(s.take(i + 1) =~= s.take(i as int).push(s[i as int]));
                text::lemma_filter_push(s.take(i as int), s[i as int], keep);
            }
            if now < list[i].1.expires_at {
                let response = DnsResponse {
                    bytes: slice_to_vec(list[i].1.data.as_slice()),
                    ttl: list[i].1.number,
                };
                out.push((list[i].0.clone(), response, list[i].1.expires_at));
                assert(snapshot_entries(out@) =~= snapshot_entries(before).push(s[i as int]));
            }
            i = i + 1;
        }
        assert(s.take(s.len() as int) =~= s);
        out
    }

    /// The responses that have not expired, with their keys and expiry times.
    pub fn snapshot(&self) -> (r: Vec<(String, DnsResponse, u64)>)
        ensures
            exists|now: u64| snapshot_entries(r@) == #[trigger] unexpired(self.entries(), now),
    {
        let now: u64 = self.clock.now();
        self.snapshot_at(now)
    }

    /// Puts saved responses back, apart from those that have expired by the calendar
    /// time `now_unix`. Each is a key, a response, its lifetime and the calendar time
    /// in seconds at which it expires.
    pub fn restore(&mut self, saved: &Vec<(String, Vec<u8>, u32, i64)>, now: u64, now_unix: i64)
        requires
            old(self).wf(),
        ensures
            final(self).wf(),
            final(self).bounds() == old(self).bounds(),
            final(self).capacity() == old(self).capacity(),
            final(self).entries() == restored(old(self).entries(), old(self).capacity(), saved@, now, now_unix),
    {
        let ghost s = self.store@;
        let ghost cap = self.store.capacity();
        let mut i: usize = 0;
        while i < saved.len()
            invariant
                i <= saved@.len(),
                self.store.wf(),
                self.bounds == old(self).bounds,
                self.store.capacity() == cap,
                cap == old(self).store.capacity(),
                self.store@ == restored(s, cap, saved@.take(i as int), now, now_unix),
            decreases saved@.len() - i,
        {
            proof {
                assert(saved@.take(i + 1).drop_last() =~= saved@.take(i as int));
                assert(saved@.take(i + 1).last() == saved@[i as int]);
            }
            let left: i128 = saved[i].3 as i128 - now_unix as i128;
            if left > 0 {
                let slot = CacheSlot {
                    data: slice_to_vec(saved[i].1.as_slice()),
                    number: saved[i].2,
                    expires_at: lru_cache::after_secs(now, left as u64),
                };
                assert(entry_of(saved@[i as int].0@, slot) == saved_entry(saved@[i as int], now, now_unix));
                self.store.put(saved[i].0.clone(), slot);
            }
            i = i + 1;
        }
        assert(saved@.take(saved@.len() as int) =~= saved@);
    }
}

/// The key is one of a question about the name.
pub open spec fn about(key: Seq<char>, name: Seq<char>) -> bool {
    (lower(name) + seq!['/']).is_prefix_of(key)
}

/// One of the strings is this text.
pub open spec fn named(keys: Seq<String>, key: Seq<char>) -> bool {
    exists|n: int| 0 <= n < keys.len() && (#[trigger] keys[n])@ == key
}

/// The entries that have not expired at `now`.
pub open spec fn unexpired(s: Seq<Entry>, now: u64) -> Seq<Entry> {
    s.filter(|e: Entry| now < e.expires_at)
}

/// The entries that a snapshot stands for.
pub open spec fn snapshot_entries(v: Seq<(String, DnsResponse, u64)>) -> Seq<Entry> {
    v.map_values(
        |p: (String, DnsResponse, u64)|
            Entry { key: p.0@, data: p.1.bytes@, number: p.1.ttl, expires_at: p.2 },
    )
}

/// The entry for a saved response that is put back at `now`.
pub open spec fn saved_entry(p: (String, Vec<u8>, u32, i64), now: u64, now_unix: i64) -> Entry {
    Entry { key: p.0@, data: p.1@, number: p.2, expires_at: later(now, (p.3 - now_unix) as u64) }
}

/// The entries after saved responses were put back.
pub open spec fn restored(
    s: Seq<Entry>,
    capacity: nat,
    saved: Seq<(String, Vec<u8>, u32, i64)>,
    now: u64,
    now_unix: i64,
) -> Seq<Entry>
    decreases saved.len(),
{
    if saved.len() == 0 {
        s
    } else {
        let before = restored(s, capacity, saved.drop_last(), now, now_unix);
        if saved.last().3 > now_unix {
            after_put(before, capacity, saved_entry(saved.last(), now, now_unix))
        } else {
            before
        }
    }
}

proof fn lemma_named_take(keys: Seq<String>, i: int, key: Seq<char>)
    requires
        0 <= i < keys.len(),
    ensures
        named(keys.take(i + 1), key) == (named(keys.take(i), key) || keys[i]@ == key),
{
    let a = keys.take(i);
    let b = keys.take(i + 1);
    if named(a, key) {
        let n = choose|n: int| 0 <= n < a.len() && (#[trigger] a[n])@ == key;
        assert(b[n]@ == key);
    }
    if keys[i]@ == key {
        assert(b[i]@ == key);
    }
    if named(b, key) {
        let n = choose|n: int| 0 <= n < b.len() && (#[trigger] b[n])@ == key;
        if n < i {
            assert(a[n]@ == key);
        }
    }
}

proof fn lemma_filter_same(s: Seq<Entry>, f: spec_fn(Entry) -> bool, g: spec_fn(Entry) -> bool)
    requires
        forall|j: int| 0 <= j < s.len() ==> f(#[trigger] s[j]) == g(s[j]),
    ensures
        s.filter(f) == s.filter(g),
    decreases s.len(),
{
    if s.len() == 0 {
        reveal(Seq::filter);
    } else {
        let t = s.drop_last();
        assert(s =~= t.push(s.last()));
        assert(f(s[s.len() - 1]) == g(s[s.len() - 1]));
        assert forall|j: int| 0 <= j < t.len() implies f(#[trigger] t[j]) == g(t[j]) by {
            assert(f(s[j]) == g(s[j]));
        }
        lemma_filter_same(t, f, g);
        text::lemma_filter_push(t, s.last(), f);
        text::lemma_filter_push(t, s.last(), g);
    }
}

proof fn lemma_filter_all(s: Seq<Entry>, f: spec_fn(Entry) -> bool)
    requires
        forall|j: int| 0 <= j < s.len() ==> f(#[trigger] s[j]),
    ensures
        s.filter(f) == s,
    decreases s.len(),
{
    if s.len() == 0 {
        reveal(Seq::filter);
        assert(s.filter(f) =~= s);
    } else {
        let t = s.drop_last();
        assert(s =~= t.push(s.last()));
        assert(f(s[s.len() - 1]));
        assert forall|j: int| 0 <= j < t.len() implies f(#[trigger] t[j]) by {
            assert(f(s[j]));
        }
        lemma_filter_all(t, f);
        text::lemma_filter_push(t, s.last(), f);
    }
}

proof fn lemma_filter_twice(s: Seq<Entry>, f: spec_fn(Entry) -> bool, h: spec_fn(Entry) -> bool)
    ensures
        s.filter(f).filter(h) == s.filter(|e: Entry| f(e) && h(e)),
    decreases s.len(),
{
    let both = |e: Entry| f(e) && h(e);
    if s.len() == 0 {
        reveal(Seq::filter);
    } else {
        let t = s.drop_last();
        assert(s =~= t.push(s.last()));
        lemma_filter_twice(t, f, h);
        text::lemma_filter_push(t, s.last(), f);
        text::lemma_filter_push(t, s.last(), both);
        text::lemma_filter_push(t.filter(f), s.last(), h);
    }
}

}
