//! What is taken over from storage when the program starts, and what is removed from
//! it while it runs.
use vstd::prelude::*;
use vstd::string::*;

use crate::api::auth;
use crate::api::auth::{argon2_accepts, hashing_failed, no_random};
use crate::blocklist::engine::{acceptable_entry, Blocklist, BlocklistView};
use crate::blocklist::suffix::normalised;
use crate::config::Config;
use crate::dns::types::QueryEntry;
use crate::error::Result;
use crate::text;

verus! {

/// The rules after a stored entry was taken over; none that is not acceptable is,
/// and none of an unknown kind.
pub open spec fn with_entry(v: BlocklistView, domain: Seq<char>, kind: Seq<char>) -> BlocklistView {
    let d = normalised(domain);
    if !acceptable_entry(d) {
        v
    } else if kind == "whitelist"@ {
        if d.contains('*') {
            BlocklistView { whitelist_wild: v.whitelist_wild.push(d), ..v }
        } else {
            BlocklistView { whitelist: v.whitelist.insert(d), ..v }
        }
    } else if kind == "blacklist"@ {
        if d.contains('*') {
            BlocklistView { blacklist_wild: v.blacklist_wild.push(d), ..v }
        } else {
            BlocklistView { blacklist: v.blacklist.insert(d), ..v }
        }
    } else {
        v
    }
}

/// The rules after stored entries were taken over.
pub open spec fn with_entries(v: BlocklistView, entries: Seq<(String, String)>) -> BlocklistView
    decreases entries.len(),
{
    if entries.len() == 0 {
        v
    } else {
        with_entry(with_entries(v, entries.drop_last()), entries.last().0@, entries.last().1@)
    }
}

/// The entry is taken over.
pub open spec fn taken_over(domain: Seq<char>, kind: Seq<char>) -> bool {
    acceptable_entry(normalised(domain)) && (kind == "whitelist"@ || kind == "blacklist"@)
}

fn load_entry(blocklist: &mut Blocklist, domain: &str, kind: &str) -> (r: bool)
    requires
        old(blocklist).wf(),
    ensures
        final(blocklist).wf(),
        final(blocklist)@ == with_entry(old(blocklist)@, domain@, kind@),
        r == taken_over(domain@, kind@),
{
    if text::str_same(kind, "whitelist") {
        return blocklist.add_whitelist(domain).is_ok();
    }
    if text::str_same(kind, "blacklist") {
        return blocklist.add_blacklist(domain).is_ok();
    }
    false
}

/// Takes over the stored entries. Returns which of them were taken over.
pub fn load_custom_entries(blocklist: &mut Blocklist, entries: &Vec<(String, String)>) -> (r: Vec<bool>)
    requires
        old(blocklist).wf(),
    ensures
        final(blocklist).wf(),
        final(blocklist)@ == with_entries(old(blocklist)@, entries@),
        r@.len() == entries@.len(),
        forall|i: int| 0 <= i < r@.len() ==> #[trigger] r@[i] == taken_over(entries@[i].0@, entries@[i].1@),
{
    let ghost v = blocklist@;
    let mut out: Vec<bool> = Vec::new();
    let mut i: usize = 0;
    while i < entries.len()
        invariant
            i <= entries@.len(),
            blocklist.wf(),
            blocklist@ == with_entries(v, entries@.take(i as int)),
            out@.len() == i,
            forall|j: int| 0 <= j < i ==> #[trigger] out@[j] == taken_over(entries@[j].0@, entries@[j].1@),
        decreases entries@.len() - i,
    {
        proof {
            assert(entries@.take(i + 1).drop_last() =~= entries@.take(i as int));
            assert(entries@.take(i + 1).last() == entries@[i as int]);
        }
        let done = load_entry(blocklist, entries[i].0.as_str(), entries[i].1.as_str());
        out.push(done);
        i = i + 1;
    }
    assert(entries@.take(entries@.len() as int) =~= entries@);
    out
}

/// `a - b`, or zero where `b` is larger.
pub open spec fn minus(a: int, b: int) -> int {
    if a > b {
        a - b
    } else {
        0
    }
}

/// How many queries were answered by the program itself: those that were neither
/// blocked nor answered from the cache or a resolver.
pub fn allowed_count(total: u64, blocked: u64, cached: u64, upstream: u64) -> (r: u64)
    ensures
        r == minus(total as int, blocked + cached + upstream),
{
    total.saturating_sub(blocked).saturating_sub(cached).saturating_sub(upstream)
}

/// The highest number of an entry, where there is one.
pub fn highest_id(entries: &Vec<QueryEntry>) -> (r: Option<u64>)
    ensures
        match r {
            Some(m) => {
                &&& exists|i: int| 0 <= i < entries@.len() && (#[trigger] entries@[i]).id == m
                &&& forall|i: int| 0 <= i < entries@.len() ==> (#[trigger] entries@[i]).id <= m
            },
            None => entries@.len() == 0,
        },
{
    if entries.len() == 0 {
        return None;
    }
    let mut max: u64 = entries[0].id;
    let ghost mut at: int = 0;
    let mut i: usize = 1;
    while i < entries.len()
        invariant
            1 <= i <= entries@.len(),
            0 <= at < i,
            entries@[at].id == max,
            forall|j: int| 0 <= j < i ==> (#[trigger] entries@[j]).id <= max,
        decreases entries@.len() - i,
    {
        if entries[i].id > max {
            max = entries[i].id;
            proof {
                at = i as int;
            }
        }
        i = i + 1;
    }
    Some(max)
}

/// The time, in seconds since 1970, before which logged queries are deleted; none
/// where they are kept for ever.
pub fn retention_cutoff(now: i64, days: u32) -> (r: Option<i64>)
    requires
        now >= 0,
    ensures
        match r {
            Some(t) => days > 0 && t == now - days * 86400,
            None => days == 0,
        },
{
    if days == 0 {
        None
    } else {
        Some(now - (days as i64) * 86400)
    }
}

/// Sets the password of the web interface, or switches it off where it is empty.
pub fn set_password(config: &mut Config, password: &str) -> (r: Result<()>)
    ensures
        *final(config) == (Config {
            api: crate::config::ApiConfig { password_hash: final(config).api.password_hash, ..old(config).api },
            ..*old(config)
        }),
        password@.len() == 0 ==> r is Ok && final(config).api.password_hash is None,
        password@.len() > 0 && r is Ok ==> (final(config).api.password_hash matches Some(h) && argon2_accepts(
            password@,
            h@,
        )),
        r matches Err(e) ==> *final(config) == *old(config) && (hashing_failed(e) || no_random(e)),
{
    let cs = text::chars_of(password);
    if cs.len() == 0 {
        config.api.password_hash = None;
        return Ok(());
    }
    match auth::hash_password(password) {
        Ok(h) => {
            config.api.password_hash = Some(h);
            Ok(())
        },
        Err(e) => Err(e),
    }
}

}
