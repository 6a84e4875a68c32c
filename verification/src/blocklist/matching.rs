//! Looking up a domain and its parents in sets, domain maps and wildcard lists.
use vstd::hash_set::StringHashSet;
use vstd::prelude::*;
use vstd::slice::*;
use vstd::string::*;
use vstd::utf8::encode_utf8;

use crate::blocklist::fst_map::FstMap;
use crate::blocklist::suffix;
use crate::blocklist::suffix::{matched_in, matched_in_bytes, matched_parent};
use crate::blocklist::wildcard::{wildcard_matches, Wildcard};
use crate::text;
use crate::text::texts;

verus! {

/// A set of texts that can be listed.
pub struct DomainSet {
    items: Vec<String>,
    index: StringHashSet,
}

impl View for DomainSet {
    type V = Set<Seq<char>>;

    closed spec fn view(&self) -> Set<Seq<char>> {
        self.index@
    }
}

impl DomainSet {
    /// The list holds each member of the set once.
    pub closed spec fn wf(&self) -> bool {
        texts(self.items@).no_duplicates() && texts(self.items@).to_set() == self.index@
    }

    /// The empty set.
    pub fn new() -> (r: DomainSet)
        ensures
            r.wf(),
            r@ == Set::<Seq<char>>::empty(),
    {
        let r = DomainSet { items: Vec::new(), index: StringHashSet::new() };
        assert(texts(r.items@).to_set() == Set::<Seq<char>>::empty());
        r
    }

    /// Adds a member.
    pub fn insert(&mut self, item: String)
        requires
            old(self).wf(),
        ensures
            final(self).wf(),
            final(self)@ == old(self)@.insert(item@),
    {
        let ghost before = self.items@;
        if !self.index.contains(item.as_str()) {
            let copy = item.clone();
            self.index.insert(item);
            self.items.push(copy);
            proof {
                text::lemma_texts_push(before, copy);
                crate::order::lemma_push_set(texts(before), copy@);
                let t = texts(before).push(copy@);
                assert(!texts(before).contains(copy@));
                assert forall|i: int, j: int| 0 <= i < t.len() && 0 <= j < t.len() && i != j implies t[i] != t[j] by {
                    if i < before.len() {
                        assert(texts(before).contains(t[i]));
                    }
                    if j < before.len() {
                        assert(texts(before).contains(t[j]));
                    }
                }
                assert(t.no_duplicates());
            }
        } else {
            assert(self@.insert(item@) == self@);
        }
    }

    /// Removes a member, if it is one.
    pub fn remove(&mut self, item: &str)
        requires
            old(self).wf(),
        ensures
            final(self).wf(),
            final(self)@ == old(self)@.remove(item@),
    {
        let ghost before = self.items@;
        if self.index.contains(item) {
            let at = self.find(item);
            self.index.remove(item);
            self.items.remove(at);
            proof {
                let t = texts(before);
                let u = texts(self.items@);
                assert(u =~= t.remove(at as int));
                assert forall|i: int, j: int| 0 <= i < u.len() && 0 <= j < u.len() && i != j implies u[i] != u[j] by {
                    let a = if i < at {
                        i
                    } else {
                        i + 1
                    };
                    let b = if j < at {
                        j
                    } else {
                        j + 1
                    };
                    assert(u[i] == t[a] && u[j] == t[b]);
                }
                assert forall|x: Seq<char>| u.to_set().contains(x) == t.to_set().remove(item@).contains(x) by {
                    if u.contains(x) {
                        let i = choose|i: int| 0 <= i < u.len() && u[i] == x;
                        let a = if i < at {
                            i
                        } else {
                            i + 1
                        };
                        assert(t[a] == x);
                        assert(t[a] != t[at as int]);
                    }
                    if t.contains(x) && x != item@ {
                        let a = choose|a: int| 0 <= a < t.len() && t[a] == x;
                        let i = if a < at {
                            a
                        } else {
                            a - 1
                        };
                        assert(u[i] == x);
                    }
                }
                assert(u.to_set() =~= t.to_set().remove(item@));
            }
        } else {
            assert(self@.remove(item@) == self@);
        }
    }

    fn find(&self, item: &str) -> (r: usize)
        requires
            self.wf(),
            self@.contains(item@),
        ensures
            r < self.items@.len(),
            self.items@[r as int]@ == item@,
    {
        let mut i: usize = 0;
        assert(texts(self.items@).contains(item@));
        while i < self.items.len()
            invariant
                i <= self.items@.len(),
                texts(self.items@).contains(item@),
                forall|j: int| 0 <= j < i ==> #[trigger] texts(self.items@)[j] != item@,
            decreases self.items@.len() - i,
        {
            if text::str_same(self.items[i].as_str(), item) {
                return i;
            }
            i = i + 1;
        }
        assert(false);
        0
    }

    /// Whether the text is a member.
    pub fn contains(&self, item: &str) -> (r: bool)
        ensures
            r == self@.contains(item@),
    {
        self.index.contains(item)
    }

    /// Whether there is no member.
    pub fn is_empty(&self) -> (r: bool)
        ensures
            r == self@.is_empty(),
    {
        self.index.is_empty()
    }

    /// The members, each of them once.
    pub fn to_vec(&self) -> (r: Vec<String>)
        requires
            self.wf(),
        ensures
            texts(r@).no_duplicates(),
            texts(r@).to_set() == self@,
    {
        let r = self.items.clone();
        assert(texts(r@) =~= texts(self.items@));
        r
    }

    /// The index of the part of `domain` that is the covering key of the set.
    pub fn find_match(&self, domain: &str) -> (r: Option<usize>)
        ensures
            match_at(domain@, matched_in(domain@, self@), r),
    {
        find_in_set(domain, &self.index)
    }
}

/// `r` is where the matched key starts in the domain.
pub open spec fn match_at(domain: Seq<char>, matched: Option<Seq<char>>, r: Option<usize>) -> bool {
    match r {
        Some(i) => i <= domain.len() && matched == Some(domain.skip(i as int)),
        None => matched is None,
    }
}

/// The index at which the key that covers a domain starts: zero for the domain
/// itself, else the start of a parent.
pub fn find_in_set(domain: &str, set: &StringHashSet) -> (r: Option<usize>)
    ensures
        match_at(domain@, matched_in(domain@, set@), r),
{
    let ghost f = |k: Seq<char>| set@.contains(k);
    if set.contains(domain) {
        assert(domain@.skip(0) == domain@);
        return Some(0);
    }
    let cs = text::chars_of(domain);
    let n: usize = cs.len();
    let mut start: usize = 0;
    assert(domain@.skip(0) == domain@);
    loop
        invariant
            n == cs@.len(),
            cs@ == domain@,
            start <= n,
            f == (|k: Seq<char>| set@.contains(k)),
            matched_in(domain@, set@) == matched_parent(domain@.skip(start as int), f),
        decreases n - start,
    {
        let rest = slice_subrange(cs.as_slice(), start, n);
        assert(rest@ == domain@.skip(start as int));
        let p = text::find_char(rest, '.');
        if p == rest.len() {
            return None;
        }
        start = start + p + 1;
        assert(rest@.skip(p as int + 1) == domain@.skip(start as int));
        let parent = domain.substring_char(start, n);
        assert(parent@ == domain@.skip(start as int));
        if suffix::is_registrable_or_deeper(parent) && set.contains(parent) {
            return Some(start);
        }
    }
}

/// The same search in a domain map.
pub fn find_in_map(domain: &str, map: &FstMap) -> (r: Option<usize>)
    ensures
        match_at(domain@, matched_in_bytes(domain@, map.keys()), r),
{
    let ghost keys = map.keys();
    let ghost f = |k: Seq<char>| keys.contains(encode_utf8(k));
    if map.contains_key(domain) {
        assert(domain@.skip(0) == domain@);
        return Some(0);
    }
    let cs = text::chars_of(domain);
    let n: usize = cs.len();
    let mut start: usize = 0;
    assert(domain@.skip(0) == domain@);
    loop
        invariant
            n == cs@.len(),
            cs@ == domain@,
            start <= n,
            keys == map.keys(),
            f == (|k: Seq<char>| keys.contains(encode_utf8(k))),
            matched_in_bytes(domain@, keys) == matched_parent(domain@.skip(start as int), f),
        decreases n - start,
    {
        let rest = slice_subrange(cs.as_slice(), start, n);
        assert(rest@ == domain@.skip(start as int));
        let p = text::find_char(rest, '.');
        if p == rest.len() {
            return None;
        }
        start = start + p + 1;
        assert(rest@.skip(p as int + 1) == domain@.skip(start as int));
        let parent = domain.substring_char(start, n);
        assert(parent@ == domain@.skip(start as int));
        if suffix::is_registrable_or_deeper(parent) && map.contains_key(parent) {
            return Some(start);
        }
    }
}

/// The part of a domain from an index on, as a string.
pub fn tail_of(domain: &str, start: usize) -> (r: String)
    requires
        start <= domain@.len(),
    ensures
        r@ == domain@.skip(start as int),
{
    let cs = text::chars_of(domain);
    let t = slice_subrange(cs.as_slice(), start, cs.len());
    assert(t@ == domain@.skip(start as int));
    text::string_of(t)
}

/// The patterns of a list of wildcards.
pub open spec fn patterns(ws: Seq<Wildcard>) -> Seq<Seq<char>> {
    ws.map_values(|w: Wildcard| w.pattern())
}

/// One of the patterns matches.
pub open spec fn wild_hit(pats: Seq<Seq<char>>, d: Seq<char>) -> bool {
    exists|i: int| 0 <= i < pats.len() && wildcard_matches(#[trigger] pats[i], d)
}

/// Whether one of the wildcards matches.
pub fn any_match(ws: &Vec<Wildcard>, domain: &str) -> (r: bool)
    ensures
        r == wild_hit(patterns(ws@), domain@),
{
    let ghost pats = patterns(ws@);
    let mut i: usize = 0;
    while i < ws.len()
        invariant
            i <= ws@.len(),
            pats == patterns(ws@),
            forall|j: int| 0 <= j < i ==> !wildcard_matches(#[trigger] pats[j], domain@),
        decreases ws@.len() - i,
    {
        assert(pats[i as int] == ws@[i as int].pattern());
        if ws[i].is_match(domain) {
            assert(wild_hit(pats, domain@));
            return true;
        }
        i = i + 1;
    }
    false
}

/// Removes the wildcards with the given pattern.
pub fn remove_pattern(ws: &mut Vec<Wildcard>, pattern: &str)
    ensures
        patterns(final(ws)@) == patterns(old(ws)@).filter(|p: Seq<char>| p != pattern@),
{
    let ghost keep = |p: Seq<char>| p != pattern@;
    let ghost all = patterns(ws@);
    let ghost mut done: int = 0;
    let mut i: usize = 0;
    assert(all.take(0).filter(keep) == Seq::<Seq<char>>::empty()) by {
        reveal(Seq::filter);
    }
    assert(all.skip(0) == all);
    while i < ws.len()
        invariant
            i <= ws@.len(),
            0 <= done <= all.len(),
            keep == (|p: Seq<char>| p != pattern@),
            patterns(ws@).take(i as int) == all.take(done).filter(keep),
            patterns(ws@).skip(i as int) == all.skip(done),
        decreases ws@.len() - i,
    {
        let ghost cur = patterns(ws@);
        proof {
            assert(cur.skip(i as int).len() > 0);
            assert(all.skip(done).len() > 0);
            assert(cur.skip(i as int)[0] == all.skip(done)[0]);
            assert(all.take(done + 1) == all.take(done).push(all[done]));
            text::lemma_filter_push(all.take(done), all[done], keep);
        }
        if ws[i].has_pattern(pattern) {
            ws.remove(i);
            proof {
                let now = patterns(ws@);
                assert(now =~= cur.remove(i as int));
                assert(now.take(i as int) =~= cur.take(i as int));
                assert(now.skip(i as int) =~= cur.skip(i as int).skip(1));
                assert(all.skip(done).skip(1) =~= all.skip(done + 1));
            }
        } else {
            proof {
                assert(cur.take(i + 1) =~= cur.take(i as int).push(cur[i as int]));
                assert(cur.skip(i + 1) =~= cur.skip(i as int).skip(1));
                assert(all.skip(done).skip(1) =~= all.skip(done + 1));
            }
            i = i + 1;
        }
        proof {
            done = done + 1;
        }
    }
    proof {
        assert(patterns(ws@).skip(ws@.len() as int).len() == 0);
        assert(all.skip(done).len() == 0);
        assert(all.take(done) == all);
        assert(patterns(ws@).take(ws@.len() as int) == patterns(ws@));
    }
}

}
