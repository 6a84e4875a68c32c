//! The subscribed lists as they are shown and changed.
use vstd::prelude::*;
use vstd::string::*;

use crate::blocklist::engine::{looked_up_in, Blocklist, BlocklistView};
use crate::blocklist::parser::AdblockStats;
use crate::config::ListConfig;
use crate::error::FeriteError;
use crate::text;
use crate::text::first_found;

verus! {

/// A list to subscribe to.
#[derive(Debug)]
pub struct AddListPayload {
    pub url: String,
    pub name: String,
    /// On where nothing is said.
    pub enabled: Option<bool>,
}

/// Whether a list is to be on.
#[derive(Debug)]
pub struct PatchListPayload {
    pub enabled: bool,
}

/// A list as it is shown.
#[derive(Debug)]
pub struct ListInfo {
    pub name: String,
    pub url: String,
    pub enabled: bool,
    /// How many domains it had when it was last refreshed.
    pub domains_loaded: Option<usize>,
    /// How it was interpreted, if it is in Adblock format.
    pub parse_stats: Option<AdblockStats>,
}

/// The list as it is shown.
pub open spec fn shows(v: BlocklistView, c: ListConfig, i: ListInfo) -> bool {
    &&& i.name@ == c.name@
    &&& i.url@ == c.url@
    &&& i.enabled == c.enabled
    &&& i.domains_loaded == looked_up_in(v.domain_counts, c.name@)
    &&& i.parse_stats == looked_up_in(v.adblock_stats, c.name@)
}

/// The list as it is shown.
pub fn to_list_info(config: &ListConfig, blocklist: &Blocklist) -> (r: ListInfo)
    ensures
        shows(blocklist@, *config, r),
{
    ListInfo {
        name: config.name.clone(),
        url: config.url.clone(),
        enabled: config.enabled,
        domains_loaded: blocklist.domain_count(config.name.as_str()),
        parse_stats: blocklist.parse_stats(config.name.as_str()),
    }
}

/// All lists as they are shown.
pub fn list_lists(blocklist: &Blocklist) -> (r: Vec<ListInfo>)
    ensures
        r@.len() == blocklist@.lists.len(),
        forall|i: int| 0 <= i < r@.len() ==> shows(blocklist@, blocklist@.lists[i], #[trigger] r@[i]),
{
    let lists = blocklist.get_lists();
    let mut out: Vec<ListInfo> = Vec::new();
    let mut i: usize = 0;
    while i < lists.len()
        invariant
            i <= lists@.len(),
            lists@ == blocklist@.lists,
            out@.len() == i,
            forall|j: int| 0 <= j < i ==> shows(blocklist@, lists@[j], #[trigger] out@[j]),
        decreases lists@.len() - i,
    {
        let info = to_list_info(&lists[i], blocklist);
        out.push(info);
        i = i + 1;
    }
    out
}

/// The first list with a name.
pub open spec fn named(lists: Seq<ListConfig>, name: Seq<char>) -> Option<ListConfig> {
    first_found(
        lists,
        |l: ListConfig|
            if l.name@ == name {
                Some(l)
            } else {
                None
            },
    )
}

/// The list with a name as it is shown, where there is one.
pub fn find_list_info(blocklist: &Blocklist, name: &str) -> (r: Option<ListInfo>)
    ensures
        match named(blocklist@.lists, name@) {
            Some(c) => r is Some && shows(blocklist@, c, r->0),
            None => r is None,
        },
{
    let lists = blocklist.get_lists();
    let ghost lv = lists@;
    let ghost f = |l: ListConfig|
        if l.name@ == name@ {
            Some(l)
        } else {
            None
        };
    let mut i: usize = 0;
    while i < lists.len()
        invariant
            i <= lists@.len(),
            lv == lists@,
            lv == blocklist@.lists,
            f == (|l: ListConfig|
                if l.name@ == name@ {
                    Some(l)
                } else {
                    None
                }),
            first_found(lv.take(i as int), f) is None,
        decreases lists@.len() - i,
    {
        proof {
            assert(lv.take(i + 1) =~= lv.take(i as int).push(lv[i as int]));
            text::lemma_first_found_push(lv.take(i as int), lv[i as int], f);
            text::lemma_first_found_prefix(lv.take(i + 1), lv.skip(i + 1), f);
            assert(lv.take(i + 1) + lv.skip(i + 1) =~= lv);
        }
        if text::str_same(lists[i].name.as_str(), name) {
            return Some(to_list_info(&lists[i], blocklist));
        }
        i = i + 1;
    }
    assert(lv.take(lv.len() as int) =~= lv);
    None
}

/// A list that is asked to be subscribed to, on unless it says otherwise.
pub fn new_list(payload: AddListPayload) -> (r: ListConfig)
    ensures
        r.url == payload.url,
        r.name == payload.name,
        r.enabled == (payload.enabled != Some(false)),
{
    let enabled = match payload.enabled {
        Some(b) => b,
        None => true,
    };
    ListConfig { url: payload.url, name: payload.name, enabled }
}

/// The error that there is no such list.
pub fn list_not_found(name: &str) -> (r: FeriteError)
    ensures
        r matches FeriteError::NotFound(m) && m@ == "list '"@ + name@ + "' not found"@,
{
    let mut m = String::new();
    m.append("list '");
    m.append(name);
    m.append("' not found");
    assert(m@ =~= "list '"@ + name@ + "' not found"@);
    FeriteError::NotFound(m)
}

}
