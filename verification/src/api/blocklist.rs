//! The user's own rules: adding, removing and trying them. Each change is made in
//! two steps, so that one that could not be stored is taken back.
use vstd::prelude::*;
use vstd::slice::*;
use vstd::string::*;

use crate::blocklist::engine::{
    acceptable_entry, blocked_in, whitelisted_for, without_pattern, Blocklist, BlocklistView,
};
use crate::blocklist::suffix;
use crate::blocklist::suffix::normalised;
use crate::blocklist::wildcard::pattern_refusal;
use crate::dns::cache::{about, DnsCache};
use crate::error::Result;
use crate::lru_cache::Entry;
use crate::text;

verus! {

/// A domain or a pattern.
#[derive(Debug)]
pub struct DomainPayload {
    pub domain: String,
}

/// What became of a domain.
#[derive(Debug)]
pub struct DomainResponse {
    pub domain: String,
    pub status: String,
}

/// Which rules a domain belongs to.
#[derive(Debug, Clone, Copy, PartialEq, Eq, Structural)]
pub enum RuleKind {
    Blacklist,
    Whitelist,
}

impl RuleKind {
    /// The kind as it is stored.
    pub open spec fn word(self) -> Seq<char> {
        match self {
            RuleKind::Blacklist => "blacklist"@,
            RuleKind::Whitelist => "whitelist"@,
        }
    }

    /// The kind as it is stored.
    pub fn as_str(&self) -> (r: &'static str)
        ensures
            r@ == self.word(),
    {
        match self {
            RuleKind::Blacklist => "blacklist",
            RuleKind::Whitelist => "whitelist",
        }
    }

    /// What a domain is called that was added.
    pub open spec fn done(self) -> Seq<char> {
        match self {
            RuleKind::Blacklist => "blacklisted"@,
            RuleKind::Whitelist => "whitelisted"@,
        }
    }
}

/// The rules with a domain added.
pub open spec fn with_rule(v: BlocklistView, kind: RuleKind, d: Seq<char>) -> BlocklistView {
    match kind {
        RuleKind::Blacklist => if d.contains('*') {
            BlocklistView { blacklist_wild: v.blacklist_wild.push(d), ..v }
        } else {
            BlocklistView { blacklist: v.blacklist.insert(d), ..v }
        },
        RuleKind::Whitelist => if d.contains('*') {
            BlocklistView { whitelist_wild: v.whitelist_wild.push(d), ..v }
        } else {
            BlocklistView { whitelist: v.whitelist.insert(d), ..v }
        },
    }
}

/// The rules without a domain.
pub open spec fn without_rule(v: BlocklistView, kind: RuleKind, d: Seq<char>) -> BlocklistView {
    match kind {
        RuleKind::Blacklist => if d.contains('*') {
            BlocklistView { blacklist_wild: without_pattern(v.blacklist_wild, d), ..v }
        } else {
            BlocklistView { blacklist: v.blacklist.remove(d), ..v }
        },
        RuleKind::Whitelist => if d.contains('*') {
            BlocklistView { whitelist_wild: without_pattern(v.whitelist_wild, d), ..v }
        } else {
            BlocklistView { whitelist: v.whitelist.remove(d), ..v }
        },
    }
}

/// The rules hold the domain.
pub open spec fn has_rule(v: BlocklistView, kind: RuleKind, d: Seq<char>) -> bool {
    match kind {
        RuleKind::Blacklist => if d.contains('*') {
            v.blacklist_wild.contains(d)
        } else {
            v.blacklist.contains(d)
        },
        RuleKind::Whitelist => if d.contains('*') {
            v.whitelist_wild.contains(d)
        } else {
            v.whitelist.contains(d)
        },
    }
}

fn add_rule(blocklist: &mut Blocklist, kind: RuleKind, d: &str) -> (r: Result<()>)
    requires
        old(blocklist).wf(),
    ensures
        final(blocklist).wf(),
        r is Ok <==> acceptable_entry(normalised(d@)),
        r is Ok ==> final(blocklist)@ == with_rule(old(blocklist)@, kind, normalised(d@)),
        r matches Err(e) ==> final(blocklist)@ == old(blocklist)@ && pattern_refusal(normalised(d@), e),
{
    match kind {
        RuleKind::Blacklist => blocklist.add_blacklist(d),
        RuleKind::Whitelist => blocklist.add_whitelist(d),
    }
}

fn remove_rule(blocklist: &mut Blocklist, kind: RuleKind, d: &str)
    requires
        old(blocklist).wf(),
    ensures
        final(blocklist).wf(),
        final(blocklist)@ == without_rule(old(blocklist)@, kind, normalised(d@)),
{
    match kind {
        RuleKind::Blacklist => blocklist.remove_blacklist(d),
        RuleKind::Whitelist => blocklist.remove_whitelist(d),
    }
}

/// Adds a domain to the rules, for the time being. Returns the name under which it
/// is to be stored.
pub fn begin_add(blocklist: &mut Blocklist, kind: RuleKind, payload: &DomainPayload) -> (r: Result<String>)
    requires
        old(blocklist).wf(),
    ensures
        final(blocklist).wf(),
        r is Ok <==> acceptable_entry(normalised(payload.domain@)),
        r matches Ok(d) ==> d@ == normalised(payload.domain@) && final(blocklist)@ == with_rule(
            old(blocklist)@,
            kind,
            normalised(payload.domain@),
        ),
        r matches Err(e) ==> pattern_refusal(normalised(payload.domain@), e) && final(blocklist)@ == old(blocklist)@,
{
    let domain = suffix::normalise_domain(payload.domain.as_str());
    proof {
        suffix::normalising_is_idempotent(payload.domain@);
    }
    match add_rule(blocklist, kind, domain.as_str()) {
        Ok(()) => Ok(domain),
        Err(e) => Err(e),
    }
}

/// The cached responses that a change of the rules for a domain leaves: none for a
/// pattern, and otherwise those about other names.
pub open spec fn still_cached(entries: Seq<Entry>, d: Seq<char>) -> Seq<Entry> {
    if d.contains('*') {
        seq![]
    } else {
        entries.filter(|e: Entry| !about(e.key, d))
    }
}

/// Drops the cached responses that a change of the rules for a domain may have made
/// wrong.
pub fn evict_domain_cache(cache: &mut DnsCache, domain: &str)
    requires
        old(cache).wf(),
    ensures
        final(cache).wf(),
        final(cache).bounds() == old(cache).bounds(),
        final(cache).capacity() == old(cache).capacity(),
        final(cache).entries() == still_cached(old(cache).entries(), domain@),
{
    let cs = text::chars_of(domain);
    proof {
        text::lemma_position(cs@, '*');
    }
    if text::find_char(cs.as_slice(), '*') < cs.len() {
        cache.clear();
        assert(cache.entries() =~= seq![]);
    } else {
        cache.evict_domain(domain);
    }
}

/// Finishes adding a domain: where it was stored, cached responses about it are
/// dropped; where it was not, it is taken back.
pub fn end_add(
    blocklist: &mut Blocklist,
    cache: &mut DnsCache,
    kind: RuleKind,
    domain: String,
    stored: bool,
) -> (r: Option<DomainResponse>)
    requires
        old(blocklist).wf(),
        old(cache).wf(),
    ensures
        final(blocklist).wf(),
        final(cache).wf(),
        final(cache).bounds() == old(cache).bounds(),
        final(cache).capacity() == old(cache).capacity(),
        if stored {
            &&& r matches Some(a) && a.domain@ == domain@ && a.status@ == kind.done()
            &&& final(blocklist)@ == old(blocklist)@
            &&& final(cache).entries() == still_cached(old(cache).entries(), domain@)
        } else {
            &&& r is None
            &&& final(blocklist)@ == without_rule(old(blocklist)@, kind, normalised(domain@))
            &&& final(cache).entries() == old(cache).entries()
        },
{
    if !stored {
        remove_rule(blocklist, kind, domain.as_str());
        return None;
    }
    evict_domain_cache(cache, domain.as_str());
    let status = match kind {
        RuleKind::Blacklist => "blacklisted".to_string(),
        RuleKind::Whitelist => "whitelisted".to_string(),
    };
    Some(DomainResponse { domain, status })
}

/// Removes a domain from the rules, for the time being. Returns the name under which
/// it was stored.
pub fn begin_remove(blocklist: &mut Blocklist, kind: RuleKind, domain: &str) -> (r: String)
    requires
        old(blocklist).wf(),
    ensures
        final(blocklist).wf(),
        r@ == normalised(domain@),
        final(blocklist)@ == without_rule(old(blocklist)@, kind, normalised(domain@)),
{
    let d = suffix::normalise_domain(domain);
    proof {
        suffix::normalising_is_idempotent(domain@);
    }
    remove_rule(blocklist, kind, d.as_str());
    d
}

/// Finishes removing a domain: where that was stored, cached responses about it are
/// dropped; where it was not, the domain is put back. Returns whether it was stored.
pub fn end_remove(blocklist: &mut Blocklist, cache: &mut DnsCache, kind: RuleKind, domain: &str, stored: bool) -> (r: bool)
    requires
        old(blocklist).wf(),
        old(cache).wf(),
    ensures
        final(blocklist).wf(),
        final(cache).wf(),
        final(cache).bounds() == old(cache).bounds(),
        final(cache).capacity() == old(cache).capacity(),
        r == stored,
        if stored {
            &&& final(blocklist)@ == old(blocklist)@
            &&& final(cache).entries() == still_cached(old(cache).entries(), domain@)
        } else {
            &&& final(blocklist)@ == (if acceptable_entry(normalised(domain@)) {
                with_rule(old(blocklist)@, kind, normalised(domain@))
            } else {
                old(blocklist)@
            })
            &&& final(cache).entries() == old(cache).entries()
        },
{
    if !stored {
        let _ = add_rule(blocklist, kind, domain);
        return false;
    }
    evict_domain_cache(cache, domain);
    true
}

/// What the rules say of a domain.
#[derive(Debug)]
pub struct DomainCheck {
    pub domain: String,
    pub blocked: bool,
    pub whitelisted: bool,
}

/// Tries a domain. One that is exempt is never reported as blocked.
pub fn check_domain(blocklist: &mut Blocklist, domain: &str) -> (r: DomainCheck)
    requires
        old(blocklist).wf(),
    ensures
        final(blocklist).wf(),
        final(blocklist)@ == old(blocklist)@,
        r.domain@ == normalised(domain@),
        r.whitelisted == whitelisted_for(old(blocklist)@, normalised(domain@), None),
        r.blocked == (!r.whitelisted && blocked_in(
            old(blocklist)@,
            normalised(domain@),
            old(blocklist)@.fst,
        )),
{
    let d = suffix::normalise_domain(domain);
    proof {
        suffix::normalising_is_idempotent(domain@);
    }
    let whitelisted = blocklist.is_whitelisted(d.as_str());
    let blocked = !whitelisted && blocklist.is_blocked(d.as_str());
    DomainCheck { domain: d, blocked, whitelisted }
}

/// A domain that was added but could not be stored leaves no trace, unless the rules
/// held it before.
pub proof fn unstored_additions_leave_no_trace(v: BlocklistView, kind: RuleKind, d: Seq<char>)
    requires
        !has_rule(v, kind, d),
    ensures
        without_rule(with_rule(v, kind, d), kind, d) == v,
{
    match kind {
        RuleKind::Blacklist => {
            if d.contains('*') {
                lemma_filter_pushed(v.blacklist_wild, d);
            } else {
                assert(v.blacklist.insert(d).remove(d) =~= v.blacklist);
            }
        },
        RuleKind::Whitelist => {
            if d.contains('*') {
                lemma_filter_pushed(v.whitelist_wild, d);
            } else {
                assert(v.whitelist.insert(d).remove(d) =~= v.whitelist);
            }
        },
    }
}

proof fn lemma_filter_pushed(s: Seq<Seq<char>>, d: Seq<char>)
    requires
        !s.contains(d),
    ensures
        without_pattern(s.push(d), d) == s,
{
    reveal(Seq::filter);
    lemma_filter_all(s, d);
    assert(s.push(d).drop_last() =~= s);
    assert(without_pattern(s.push(d), d) == without_pattern(s, d));
}

proof fn lemma_filter_all(s: Seq<Seq<char>>, d: Seq<char>)
    requires
        !s.contains(d),
    ensures
        without_pattern(s, d) == s,
    decreases s.len(),
{
    reveal(Seq::filter);
    let f = |p: Seq<char>| p != d;
    if s.len() > 0 {
        let t = s.drop_last();
        if t.contains(d) {
            let i = choose|i: int| 0 <= i < t.len() && t[i] == d;
            assert(s[i] == d);
        }
        lemma_filter_all(t, d);
        assert(s.last() == s[s.len() - 1]);
        assert(s =~= t.push(s.last()));
    }
}

/// A domain without a pattern that was removed but could not be stored as removed is
/// there again, exactly as it was.
pub proof fn unstored_removals_leave_no_trace(v: BlocklistView, kind: RuleKind, d: Seq<char>)
    requires
        has_rule(v, kind, d),
        !d.contains('*'),
    ensures
        with_rule(without_rule(v, kind, d), kind, d) == v,
{
    match kind {
        RuleKind::Blacklist => {
            assert(v.blacklist.remove(d).insert(d) =~= v.blacklist);
        },
        RuleKind::Whitelist => {
            assert(v.whitelist.remove(d).insert(d) =~= v.whitelist);
        },
    }
}

/// A domain that was removed is in the rules no more.
pub proof fn removed_rules_are_gone(v: BlocklistView, kind: RuleKind, d: Seq<char>)
    ensures
        !has_rule(without_rule(v, kind, d), kind, d),
{
    let f = |p: Seq<char>| p != d;
    if d.contains('*') {
        let s = match kind {
            RuleKind::Blacklist => v.blacklist_wild,
            RuleKind::Whitelist => v.whitelist_wild,
        };
        let t = without_pattern(s, d);
        if t.contains(d) {
            let i = choose|i: int| 0 <= i < t.len() && t[i] == d;
            s.lemma_filter_pred(f, i);
        }
    }
}

}
