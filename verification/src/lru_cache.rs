//! A bounded cache keyed by text, kept by the `lru` crate, and the clock by which
//! its entries expire.
use vstd::prelude::*;
use vstd::slice::*;
use vstd::string::*;

use crate::text;

verus! {

/// What an entry holds: bytes, a number, and the time at which it expires.
#[derive(Debug)]
pub struct CacheSlot {
    pub data: Vec<u8>,
    pub number: u32,
    pub expires_at: u64,
}

/// An entry as a plain value.
pub ghost struct Entry {
    pub key: Seq<char>,
    pub data: Seq<u8>,
    pub number: u32,
    pub expires_at: u64,
}

/// The entry for a key and what it holds.
pub open spec fn entry_of(key: Seq<char>, slot: CacheSlot) -> Entry {
    Entry { key, data: slot.data@, number: slot.number, expires_at: slot.expires_at }
}

/// A cache of the `lru` crate.
#[verifier::external_type_specification]
#[verifier::external_body]
#[verifier::reject_recursive_types(K)]
#[verifier::reject_recursive_types(V)]
#[verifier::reject_recursive_types(S)]
pub struct ExLruCache<K, V, S>(lru::LruCache<K, V, S>);

/// The hasher with which the `lru` crate finds its entries.
#[verifier::external_type_specification]
#[verifier::external_body]
pub struct ExLruHasher(lru::DefaultHasher);

/// A point in time of the machine's monotonic clock.
#[verifier::external_type_specification]
#[verifier::external_body]
pub struct ExInstant(std::time::Instant);

/// The entries of a cache, from the most to the least recently used.
pub uninterp spec fn lru_entries(c: lru::LruCache<String, CacheSlot>) -> Seq<Entry>;

/// How many entries a cache can hold.
pub uninterp spec fn lru_capacity(c: lru::LruCache<String, CacheSlot>) -> nat;

/// There is an entry for the key.
pub open spec fn has_key(s: Seq<Entry>, key: Seq<char>) -> bool {
    exists|i: int| 0 <= i < s.len() && (#[trigger] s[i]).key == key
}

/// The index of the entry for a key that is there.
pub open spec fn key_index(s: Seq<Entry>, key: Seq<char>) -> int {
    choose|i: int| 0 <= i < s.len() && (#[trigger] s[i]).key == key
}

/// The entries for other keys, in order.
pub open spec fn without_key(s: Seq<Entry>, key: Seq<char>) -> Seq<Entry> {
    s.filter(|e: Entry| e.key != key)
}

/// The entries after one was put: it comes first, in place of an earlier one for
/// its key, or else of the least recently used one where the cache is full.
pub open spec fn after_put(s: Seq<Entry>, capacity: nat, e: Entry) -> Seq<Entry> {
    if has_key(s, e.key) || s.len() < capacity {
        seq![e] + without_key(s, e.key)
    } else {
        seq![e] + s.drop_last()
    }
}

/// No two entries have the same key.
pub open spec fn distinct_keys(s: Seq<Entry>) -> bool {
    forall|i: int, j: int| 0 <= i < j < s.len() ==> (#[trigger] s[i]).key != (#[trigger] s[j]).key
}

/// `LruCache::sparse` makes an empty cache of the given capacity, for which no
/// space is set aside yet.
#[verifier::external_body]
fn lru_new(capacity: usize) -> (c: lru::LruCache<String, CacheSlot>)
    requires
        capacity > 0,
    ensures
        lru_entries(c).len() == 0,
        lru_capacity(c) == capacity,
{
    lru::LruCache::sparse(std::num::NonZeroUsize::new(capacity).unwrap())
}

/// `LruCache::get` finds the value of a key and makes its entry the most recently
/// used one.
#[verifier::external_body]
fn lru_get(c: &mut lru::LruCache<String, CacheSlot>, key: &str) -> (r: Option<(u32, u64)>)
    ensures
        lru_capacity(*final(c)) == lru_capacity(*old(c)),
        !has_key(lru_entries(*old(c)), key@) ==> r is None && lru_entries(*final(c)) == lru_entries(*old(c)),
        has_key(lru_entries(*old(c)), key@) ==> {
            let e = lru_entries(*old(c))[key_index(lru_entries(*old(c)), key@)];
            r == Some((e.number, e.expires_at)) && lru_entries(*final(c)) == seq![e] + without_key(
                lru_entries(*old(c)),
                key@,
            )
        },
{
    c.get(key).map(|s| (s.number, s.expires_at))
}

/// `LruCache::peek` finds the value of a key and leaves the order as it is.
#[verifier::external_body]
fn lru_peek<'a>(c: &'a lru::LruCache<String, CacheSlot>, key: &str) -> (r: Option<&'a CacheSlot>)
    ensures
        r is Some <==> has_key(lru_entries(*c), key@),
        r is Some ==> entry_of(key@, *r->0) == lru_entries(*c)[key_index(lru_entries(*c), key@)],
{
    c.peek(key)
}

/// `LruCache::put` stores a value as the most recently used entry. It replaces
/// the entry for the same key, or else the least recently used one of a full cache.
#[verifier::external_body]
fn lru_put(c: &mut lru::LruCache<String, CacheSlot>, key: String, slot: CacheSlot)
    ensures
        lru_capacity(*final(c)) == lru_capacity(*old(c)),
        lru_entries(*final(c)) == after_put(lru_entries(*old(c)), lru_capacity(*old(c)), entry_of(key@, slot)),
{
    c.put(key, slot);
}

/// `LruCache::pop` removes the entry for a key, if there is one.
#[verifier::external_body]
fn lru_pop(c: &mut lru::LruCache<String, CacheSlot>, key: &str)
    ensures
        lru_capacity(*final(c)) == lru_capacity(*old(c)),
        lru_entries(*final(c)) == without_key(lru_entries(*old(c)), key@),
{
    c.pop(key);
}

/// `LruCache::clear` removes all entries.
#[verifier::external_body]
fn lru_clear(c: &mut lru::LruCache<String, CacheSlot>)
    ensures
        lru_entries(*final(c)).len() == 0,
        lru_capacity(*final(c)) == lru_capacity(*old(c)),
{
    c.clear();
}

/// `LruCache::len` is the number of entries.
#[verifier::external_body]
fn lru_len(c: &lru::LruCache<String, CacheSlot>) -> (r: usize)
    ensures
        r == lru_entries(*c).len(),
{
    c.len()
}

/// The entries that a list of keyed slots stands for.
pub open spec fn keyed_entries(v: Seq<(String, CacheSlot)>) -> Seq<Entry> {
    v.map_values(|p: (String, CacheSlot)| entry_of(p.0@, p.1))
}

/// `LruCache::iter` visits the entries from the most to the least recently used.
#[verifier::external_body]
fn lru_list(c: &lru::LruCache<String, CacheSlot>) -> (r: Vec<(String, CacheSlot)>)
    ensures
        keyed_entries(r@) == lru_entries(*c),
{
    c.iter()
        .map(|(k, s)| (k.clone(), CacheSlot { data: s.data.clone(), number: s.number, expires_at: s.expires_at }))
        .collect()
}

/// `Instant::now` reads the machine's monotonic clock. Nothing is promised of it.
#[verifier::external_body]
fn instant_now() -> (r: std::time::Instant) {
    std::time::Instant::now()
}

/// `Instant::elapsed` is the time since an instant, here in nanoseconds. Nothing
/// is promised of it.
#[verifier::external_body]
fn instant_elapsed(start: &std::time::Instant) -> (r: u64) {
    start.elapsed().as_nanos() as u64
}

/// Nanoseconds in a second.
pub const NANOS_PER_SEC: u64 = 1_000_000_000;

/// A clock that counts nanoseconds from its own start.
#[derive(Debug)]
pub struct Clock {
    start: std::time::Instant,
}

impl Clock {
    /// A clock that starts now.
    pub fn new() -> Clock {
        Clock { start: instant_now() }
    }

    /// Nanoseconds since the clock was started.
    pub fn now(&self) -> u64 {
        instant_elapsed(&self.start)
    }
}

/// The time `secs` seconds after `now`, at most the largest time there is.
pub open spec fn later(now: u64, secs: u64) -> u64 {
    if now + secs * NANOS_PER_SEC <= u64::MAX {
        (now + secs * NANOS_PER_SEC) as u64
    } else {
        u64::MAX
    }
}

/// The time `secs` seconds after `now`.
pub fn after_secs(now: u64, secs: u64) -> (r: u64)
    ensures
        r == later(now, secs),
{
    match secs.checked_mul(NANOS_PER_SEC) {
        Some(d) => match now.checked_add(d) {
            Some(t) => t,
            None => u64::MAX,
        },
        None => u64::MAX,
    }
}

/// A bounded cache keyed by text.
pub struct LruStore {
    inner: lru::LruCache<String, CacheSlot>,
}

impl View for LruStore {
    type V = Seq<Entry>;

    /// The entries, from the most to the least recently used.
    closed spec fn view(&self) -> Seq<Entry> {
        lru_entries(self.inner)
    }
}

impl LruStore {
    /// How many entries fit.
    pub closed spec fn capacity(&self) -> nat {
        lru_capacity(self.inner)
    }

    /// Keys are distinct and the capacity is respected.
    pub open spec fn wf(&self) -> bool {
        distinct_keys(self@) && self@.len() <= self.capacity() && self.capacity() > 0
    }

    /// An empty cache.
    pub fn new(capacity: usize) -> (r: LruStore)
        requires
            capacity > 0,
        ensures
            r.wf(),
            r@.len() == 0,
            r.capacity() == capacity,
    {
        LruStore { inner: lru_new(capacity) }
    }

    /// The number and the expiry of a key's entry, which becomes the most recently used.
    pub fn get(&mut self, key: &str) -> (r: Option<(u32, u64)>)
        requires
            old(self).wf(),
        ensures
            final(self).wf(),
            final(self).capacity() == old(self).capacity(),
            !has_key(old(self)@, key@) ==> r is None && final(self)@ == old(self)@,
            has_key(old(self)@, key@) ==> {
                let e = old(self)@[key_index(old(self)@, key@)];
                r == Some((e.number, e.expires_at)) && final(self)@ == seq![e] + without_key(old(self)@, key@)
            },
    {
        let ghost before = self@;
        let r = lru_get(&mut self.inner, key);
        proof {
            if has_key(before, key@) {
                let e = before[key_index(before, key@)];
                lemma_without_key(before, key@);
                lemma_front(e, without_key(before, key@));
                lemma_without_present(before, key@);
            }
        }
        r
    }

    /// What a key's entry holds.
    pub fn peek(&self, key: &str) -> (r: Option<&CacheSlot>)
        ensures
            r is Some <==> has_key(self@, key@),
            r is Some ==> entry_of(key@, *r->0) == self@[key_index(self@, key@)],
    {
        lru_peek(&self.inner, key)
    }

    /// Stores an entry.
    pub fn put(&mut self, key: String, slot: CacheSlot)
        requires
            old(self).wf(),
        ensures
            final(self).wf(),
            final(self).capacity() == old(self).capacity(),
            final(self)@ == after_put(old(self)@, old(self).capacity(), entry_of(key@, slot)),
    {
        let ghost before = self@;
        let ghost e = entry_of(key@, slot);
        lru_put(&mut self.inner, key, slot);
        proof {
            lemma_without_key(before, key@);
            lemma_front(e, without_key(before, key@));
            if has_key(before, key@) {
                lemma_without_present(before, key@);
            } else if before.len() >= self.capacity() {
                assert forall|i: int| 0 <= i < before.drop_last().len() implies (#[trigger] before.drop_last()[i]).key
                    != e.key by {
                    assert(before[i].key != e.key);
                }
                assert(distinct_keys(before.drop_last()));
                lemma_front(e, before.drop_last());
            }
        }
    }

    /// Removes the entry for a key.
    pub fn pop(&mut self, key: &str)
        requires
            old(self).wf(),
        ensures
            final(self).wf(),
            final(self).capacity() == old(self).capacity(),
            final(self)@ == without_key(old(self)@, key@),
    {
        proof {
            lemma_without_key(self@, key@);
        }
        lru_pop(&mut self.inner, key);
    }

    /// Removes all entries.
    pub fn clear(&mut self)
        requires
            old(self).wf(),
        ensures
            final(self).wf(),
            final(self)@.len() == 0,
            final(self).capacity() == old(self).capacity(),
    {
        lru_clear(&mut self.inner);
    }

    /// How many entries there are.
    pub fn len(&self) -> (r: usize)
        ensures
            r == self@.len(),
    {
        lru_len(&self.inner)
    }

    /// The entries, from the most to the least recently used.
    pub fn list(&self) -> (r: Vec<(String, CacheSlot)>)
        ensures
            keyed_entries(r@) == self@,
    {
        lru_list(&self.inner)
    }
}

/// What stays after the entry for a key is taken out.
pub proof fn lemma_without_key(s: Seq<Entry>, key: Seq<char>)
    ensures
        without_key(s, key).len() <= s.len(),
        forall|i: int| 0 <= i < without_key(s, key).len() ==> (#[trigger] without_key(s, key)[i]).key != key,
        forall|i: int|
            0 <= i < without_key(s, key).len() ==> s.contains(#[trigger] without_key(s, key)[i]),
        forall|i: int|
            0 <= i < s.len() && s[i].key != key ==> without_key(s, key).contains(#[trigger] s[i]),
        distinct_keys(s) ==> distinct_keys(without_key(s, key)),
        !has_key(s, key) ==> without_key(s, key) == s,
    decreases s.len(),
{
    let f = |e: Entry| e.key != key;
    reveal(Seq::filter);
    if s.len() > 0 {
        let t = s.drop_last();
        lemma_without_key(t, key);
        let w = without_key(t, key);
        assert(s == t.push(s.last()));
        text::lemma_filter_push(t, s.last(), f);
        let r = without_key(s, key);
        assert forall|i: int| 0 <= i < r.len() implies s.contains(#[trigger] r[i]) by {
            if i < w.len() {
                assert(t.contains(w[i]));
                let j = choose|j: int| 0 <= j < t.len() && t[j] == w[i];
                assert(s[j] == r[i]);
            } else {
                assert(s[s.len() - 1] == r[i]);
            }
        }
        assert forall|i: int| 0 <= i < s.len() && s[i].key != key implies r.contains(#[trigger] s[i]) by {
            if i < t.len() {
                assert(w.contains(t[i]));
                let j = choose|j: int| 0 <= j < w.len() && w[j] == t[i];
                assert(r[j] == s[i]);
            } else {
                assert(r[w.len() as int] == s[i]);
            }
        }
        if distinct_keys(s) {
            assert(distinct_keys(t)) by {
                assert forall|i: int, j: int| 0 <= i < j < t.len() implies (#[trigger] t[i]).key != (
                #[trigger] t[j]).key by {
                    assert(s[i].key != s[j].key);
                }
            }
            assert forall|i: int, j: int| 0 <= i < j < r.len() implies (#[trigger] r[i]).key != (
            #[trigger] r[j]).key by {
                if j < w.len() {
                    assert(w[i].key != w[j].key);
                } else {
                    assert(t.contains(w[i]));
                    let k = choose|k: int| 0 <= k < t.len() && t[k] == w[i];
                    assert(s[k].key != s[s.len() - 1].key);
                }
            }
        }
        if !has_key(s, key) {
            assert(s[s.len() - 1].key != key);
            assert(!has_key(t, key)) by {
                if has_key(t, key) {
                    let k = choose|k: int| 0 <= k < t.len() && (#[trigger] t[k]).key == key;
                    assert(s[k].key == key);
                }
            }
        }
    }
}

proof fn lemma_front(e: Entry, s: Seq<Entry>)
    requires
        distinct_keys(s),
        forall|i: int| 0 <= i < s.len() ==> (#[trigger] s[i]).key != e.key,
    ensures
        distinct_keys(seq![e] + s),
{
    let r = seq![e] + s;
    assert forall|i: int, j: int| 0 <= i < j < r.len() implies (#[trigger] r[i]).key != (#[trigger] r[j]).key by {
        assert(r[j] == s[j - 1]);
        if i > 0 {
            assert(r[i] == s[i - 1]);
        }
    }
}

proof fn lemma_without_present(s: Seq<Entry>, key: Seq<char>)
    requires
        has_key(s, key),
    ensures
        without_key(s, key).len() < s.len(),
    decreases s.len(),
{
    let f = |e: Entry| e.key != key;
    let t = s.drop_last();
    assert(s == t.push(s.last()));
    text::lemma_filter_push(t, s.last(), f);
    lemma_without_key(t, key);
    if s.last().key != key {
        let k = choose|k: int| 0 <= k < s.len() && (#[trigger] s[k]).key == key;
        assert(t[k].key == key);
        lemma_without_present(t, key);
    }
}

}
