//! Recent block and allow decisions, so that a list is not searched for every packet.
use vstd::prelude::*;
use vstd::string::*;

use crate::lru_cache;
use crate::lru_cache::{after_put, has_key, key_index, later, without_key, CacheSlot, Clock, Entry, LruStore};

verus! {

/// Seconds for which an allow decision is remembered.
pub const ALLOWED_TTL: u64 = 300;

/// Seconds for which a block decision is remembered.
pub const BLOCKED_TTL: u64 = 3600;

/// A bounded cache of decisions.
pub struct BlocklistCache {
    store: LruStore,
    clock: Clock,
}

/// Whether a remembered decision was to block.
pub open spec fn is_block(e: Entry) -> bool {
    e.number == 1
}

/// The entry that remembers a decision made at `now`.
pub open spec fn decision_entry(domain: Seq<char>, blocked: bool, now: u64) -> Entry {
    Entry {
        key: domain,
        data: Seq::empty(),
        number: if blocked {
            1
        } else {
            0
        },
        expires_at: later(
            now,
            if blocked {
                BLOCKED_TTL
            } else {
                ALLOWED_TTL
            },
        ),
    }
}

/// What a look-up at `now` answers, and what it leaves behind: an entry that has
/// not expired is the answer and becomes the most recently used; one that has is
/// removed.
pub open spec fn looked_up(before: Seq<Entry>, domain: Seq<char>, now: u64, r: Option<bool>, after: Seq<Entry>) -> bool {
    if has_key(before, domain) {
        let e = before[key_index(before, domain)];
        if now < e.expires_at {
            r == Some(is_block(e)) && after == seq![e] + without_key(before, domain)
        } else {
            r is None && after == without_key(before, domain)
        }
    } else {
        r is None && after == before
    }
}

impl BlocklistCache {
    /// The remembered decisions, from the most to the least recently used.
    pub closed spec fn entries(&self) -> Seq<Entry> {
        self.store@
    }

    /// How many decisions are remembered at most.
    pub closed spec fn capacity(&self) -> nat {
        self.store.capacity()
    }

    /// One decision per domain, within the capacity.
    pub closed spec fn wf(&self) -> bool {
        self.store.wf()
    }

    /// An empty cache; a capacity of zero counts as one.
    pub fn new(capacity: usize) -> (r: BlocklistCache)
        ensures
            r.wf(),
            r.entries().len() == 0,
            r.capacity() == (if capacity == 0 {
                1
            } else {
                capacity
            }),
    {
        let cap: usize = if capacity == 0 {
            1
        } else {
            capacity
        };
        BlocklistCache { store: LruStore::new(cap), clock: Clock::new() }
    }

    /// Looks up a domain at a given time: `Some(true)` if it is remembered as
    /// blocked, `Some(false)` if as allowed.
    pub fn get_at(&mut self, domain: &str, now: u64) -> (r: Option<bool>)
        requires
            old(self).wf(),
        ensures
            final(self).wf(),
            final(self).capacity() == old(self).capacity(),
            looked_up(old(self).entries(), domain@, now, r, final(self).entries()),
    {
        let ghost before = self.store@;
        match self.store.get(domain) {
            Some((number, expires_at)) => if now < expires_at {
                Some(number == 1)
            } else {
                self.store.pop(domain);
                proof {
                    let e = before[key_index(before, domain@)];
                    lemma_pop_promoted(before, e, domain@);
                }
                None
            },
            None => None,
        }
    }

    /// Looks up a domain.
    pub fn get(&mut self, domain: &str) -> (r: Option<bool>)
        requires
            old(self).wf(),
        ensures
            final(self).wf(),
            final(self).capacity() == old(self).capacity(),
            exists|now: u64| #[trigger] looked_up(old(self).entries(), domain@, now, r, final(self).entries()),
    {
        let now: u64 = self.clock.now();
        self.get_at(domain, now)
    }

    /// Remembers a decision made at a given time.
    pub fn insert_at(&mut self, domain: &str, blocked: bool, now: u64)
        requires
            old(self).wf(),
        ensures
            final(self).wf(),
            old(self).capacity() > 0,
            final(self).capacity() == old(self).capacity(),
            final(self).entries() == after_put(
                old(self).entries(),
                old(self).capacity(),
                decision_entry(domain@, blocked, now),
            ),
    {
        let ttl: u64 = if blocked {
            BLOCKED_TTL
        } else {
            ALLOWED_TTL
        };
        let slot = CacheSlot {
            data: Vec::new(),
            number: if blocked {
                1
            } else {
                0
            },
            expires_at: lru_cache::after_secs(now, ttl),
        };
        proof {
            assert(lru_cache::entry_of(domain@, slot) == decision_entry(domain@, blocked, now));
        }
        self.store.put(domain.to_string(), slot);
    }

    /// Remembers a decision.
    pub fn insert(&mut self, domain: &str, blocked: bool)
        requires
            old(self).wf(),
        ensures
            final(self).wf(),
            old(self).capacity() > 0,
            final(self).capacity() == old(self).capacity(),
            exists|now: u64|
                final(self).entries() == after_put(
                    old(self).entries(),
                    old(self).capacity(),
                    #[trigger] decision_entry(domain@, blocked, now),
                ),
    {
        let now: u64 = self.clock.now();
        self.insert_at(domain, blocked, now);
    }

    /// Forgets the decision for one domain.
    pub fn invalidate(&mut self, domain: &str)
        requires
            old(self).wf(),
        ensures
            final(self).wf(),
            final(self).capacity() == old(self).capacity(),
            final(self).entries() == without_key(old(self).entries(), domain@),
    {
        self.store.pop(domain);
    }

    /// Forgets all decisions.
    pub fn clear(&mut self)
        requires
            old(self).wf(),
        ensures
            final(self).wf(),
            final(self).capacity() == old(self).capacity(),
            final(self).entries().len() == 0,
    {
        self.store.clear();
    }

    /// How many decisions are remembered.
    pub fn len(&self) -> (r: usize)
        ensures
            r == self.entries().len(),
    {
        self.store.len()
    }
}

proof fn lemma_pop_promoted(s: Seq<Entry>, e: Entry, key: Seq<char>)
    requires
        e.key == key,
    ensures
        without_key(seq![e] + without_key(s, key), key) == without_key(s, key),
    decreases s.len(),
{
    let w = without_key(s, key);
    lru_cache::lemma_without_key(s, key);
    let f = |x: Entry| x.key != key;
    lemma_single(e, f);
    lemma_all_kept(seq![e], w, f);
}

proof fn lemma_single(e: Entry, f: spec_fn(Entry) -> bool)
    requires
        !f(e),
    ensures
        seq![e].filter(f) == Seq::<Entry>::empty(),
{
    assert(Seq::<Entry>::empty().filter(f) == Seq::<Entry>::empty()) by {
        reveal(Seq::filter);
    }
    crate::text::lemma_filter_push(Seq::<Entry>::empty(), e, f);
    assert(seq![e] =~= Seq::<Entry>::empty().push(e));
}

proof fn lemma_all_kept(one: Seq<Entry>, w: Seq<Entry>, f: spec_fn(Entry) -> bool)
    requires
        one.filter(f) == Seq::<Entry>::empty(),
        forall|i: int| 0 <= i < w.len() ==> f(#[trigger] w[i]),
    ensures
        (one + w).filter(f) == w,
    decreases w.len(),
{
    if w.len() == 0 {
        assert(one + w =~= one);
        assert(w =~= Seq::<Entry>::empty());
    } else {
        let t = w.drop_last();
        let x = w.last();
        assert(w == t.push(x));
        assert(f(w[w.len() - 1]));
        assert forall|i: int| 0 <= i < t.len() implies f(#[trigger] t[i]) by {
            assert(f(w[i]));
        }
        lemma_all_kept(one, t, f);
        let a = one + t;
        crate::text::lemma_filter_push(a, x, f);
        assert(one + w =~= a.push(x));
    }
}

}
