//! What rules, lists and records that are entered by hand bring about.
use vstd::prelude::*;
use vstd::string::*;

use crate::api::blocklist::{still_cached, with_rule, without_rule, RuleKind};
use crate::api::custom_records::of_domain;
use crate::api::lists::{named, shows, ListInfo};
use crate::blocklist::decision_laws::{lemma_matched_sets, some_name_covers, stands_for};
use crate::blocklist::engine::{blocked_in, whitelisted_for, BlocklistView, ProfileView};
use crate::blocklist::list_laws::lemma_filtered;
use crate::blocklist::matching::wild_hit;
use crate::blocklist::wildcard::{pattern_refusal, wildcard_matches};
use crate::config::{CustomRecordConfig, ListConfig};
use crate::dns::types::QueryStatus;
use crate::error::{config_error, FeriteError};
use crate::lru_cache::Entry;
use crate::text::lower;

verus! {

/// A name that is added is refused, or exempt, with all that it stands for; a pattern with
/// all that it matches.
pub proof fn added_rules_take_effect(
    v: BlocklistView,
    kind: RuleKind,
    rule: Seq<char>,
    d: Seq<char>,
    fst: Set<Seq<u8>>,
    p: Option<ProfileView>,
)
    requires
        if rule.contains('*') {
            wildcard_matches(rule, d)
        } else {
            stands_for(rule, d)
        },
    ensures
        kind is Blacklist ==> blocked_in(with_rule(v, kind, rule), d, fst),
        kind is Whitelist ==> whitelisted_for(with_rule(v, kind, rule), d, p),
{
    let w = with_rule(v, kind, rule);
    lemma_matched_sets(d, w.blacklist, fst);
    lemma_matched_sets(d, w.whitelist, fst);
    if rule.contains('*') {
        if kind is Blacklist {
            assert(w.blacklist_wild[v.blacklist_wild.len() as int] == rule);
            assert(wild_hit(w.blacklist_wild, d));
        } else {
            assert(w.whitelist_wild[v.whitelist_wild.len() as int] == rule);
            assert(wild_hit(w.whitelist_wild, d));
        }
    } else {
        if kind is Blacklist {
            assert(w.blacklist.contains(rule));
            assert(some_name_covers(w.blacklist, d));
        } else {
            assert(w.whitelist.contains(rule));
            assert(some_name_covers(w.whitelist, d));
        }
    }
}

/// Adding or removing one rule changes no other, and nothing but the rules of its kind.
pub proof fn other_rules_stay(v: BlocklistView, kind: RuleKind, rule: Seq<char>, d: Seq<char>)
    requires
        d != rule,
    ensures
        ({
            let w = with_rule(v, kind, rule);
            let x = without_rule(v, kind, rule);
            &&& w.whitelist.contains(d) == v.whitelist.contains(d) && x.whitelist.contains(d) == v.whitelist.contains(d)
            &&& w.blacklist.contains(d) == v.blacklist.contains(d) && x.blacklist.contains(d) == v.blacklist.contains(d)
            &&& w.whitelist_wild.contains(d) == v.whitelist_wild.contains(d) && x.whitelist_wild.contains(d)
                == v.whitelist_wild.contains(d)
            &&& w.blacklist_wild.contains(d) == v.blacklist_wild.contains(d) && x.blacklist_wild.contains(d)
                == v.blacklist_wild.contains(d)
            &&& kind is Blacklist ==> w.whitelist == v.whitelist && w.whitelist_wild == v.whitelist_wild && x.whitelist
                == v.whitelist && x.whitelist_wild == v.whitelist_wild
            &&& kind is Whitelist ==> w.blacklist == v.blacklist && w.blacklist_wild == v.blacklist_wild && x.blacklist
                == v.blacklist && x.blacklist_wild == v.blacklist_wild
            &&& w.fst == v.fst && x.fst == v.fst && w.profiles == v.profiles && x.profiles == v.profiles && w.enabled
                == v.enabled && x.enabled == v.enabled
        }),
{
    lemma_pushed_other(v.whitelist_wild, rule, d);
    lemma_pushed_other(v.blacklist_wild, rule, d);
    broadcast use lemma_filtered;

}

proof fn lemma_pushed_other(s: Seq<Seq<char>>, x: Seq<char>, d: Seq<char>)
    requires
        d != x,
    ensures
        s.push(x).contains(d) == s.contains(d),
{
    if s.contains(d) {
        let i = choose|i: int| 0 <= i < s.len() && s[i] == d;
        assert(s.push(x)[i] == d);
    }
    if s.push(x).contains(d) {
        let i = choose|i: int| 0 <= i < s.push(x).len() && s.push(x)[i] == d;
        assert(s[i] == d);
    }
}

/// With a new rule what was cached of its name is forgotten, of every type, and nothing
/// else; with a new pattern all is.
pub proof fn cached_answers_make_way_for_rules(entries: Seq<Entry>, d: Seq<char>, e: Entry)
    ensures
        d.contains('*') ==> still_cached(entries, d).len() == 0,
        !d.contains('*') ==> (still_cached(entries, d).contains(e) <==> entries.contains(e) && !(lower(d)
            + "/"@).is_prefix_of(e.key)),
{
    reveal_strlit("/");
    assert("/"@ =~= seq!['/']);
    lemma_filtered(entries, |x: Entry| !crate::dns::cache::about(x.key, d), e);
}

/// A list is shown with what is known of it; and of lists of one name the first is found.
pub proof fn lists_are_shown_with_their_counts(v: BlocklistView, c: ListConfig, info: ListInfo, name: Seq<char>, i: int)
    requires
        shows(v, c, info),
    ensures
        info.name@ == c.name@ && info.url@ == c.url@ && info.enabled == c.enabled,
        v.domain_counts.dom().contains(c.name@) ==> info.domains_loaded == Some(v.domain_counts[c.name@]),
        !v.domain_counts.dom().contains(c.name@) ==> info.domains_loaded is None,
        v.adblock_stats.dom().contains(c.name@) ==> info.parse_stats == Some(v.adblock_stats[c.name@]),
        !v.adblock_stats.dom().contains(c.name@) ==> info.parse_stats is None,
        0 <= i < v.lists.len() && v.lists[i].name@ == name && (forall|j: int|
            0 <= j < i ==> (#[trigger] v.lists[j]).name@ != name) ==> named(v.lists, name) == Some(v.lists[i]),
        (forall|j: int| 0 <= j < v.lists.len() ==> (#[trigger] v.lists[j]).name@ != name) ==> named(v.lists, name) is None,
{
    lemma_named(v.lists, name, i);
}

proof fn lemma_named(lists: Seq<ListConfig>, name: Seq<char>, i: int)
    ensures
        0 <= i < lists.len() && lists[i].name@ == name && (forall|j: int|
            0 <= j < i ==> (#[trigger] lists[j]).name@ != name) ==> named(lists, name) == Some(lists[i]),
        (forall|j: int| 0 <= j < lists.len() ==> (#[trigger] lists[j]).name@ != name) ==> named(lists, name) is None,
    decreases lists.len(),
{
    if lists.len() > 0 {
        let t = lists.drop_last();
        lemma_named(t, name, i);
        assert(forall|j: int| 0 <= j < t.len() ==> #[trigger] t[j] == lists[j]);
        assert(lists[lists.len() - 1] == lists.last());
        if forall|j: int| 0 <= j < t.len() ==> (#[trigger] lists[j]).name@ != name {
            assert forall|j: int| 0 <= j < t.len() implies (#[trigger] t[j]).name@ != name by {
                assert(lists[j].name@ != name);
            }
        }
    }
}

/// The records of a domain are all those under its name.
pub proof fn records_of_a_domain_stand_under_its_name(rs: Seq<CustomRecordConfig>, domain: Seq<char>, r: CustomRecordConfig)
    ensures
        of_domain(rs, domain).contains(r) <==> rs.contains(r) && r.domain@ == domain,
{
    broadcast use lemma_filtered;

}

/// The words for what became of a query, and for the kinds of rules.
pub proof fn outcomes_and_kinds_have_their_words()
    ensures
        QueryStatus::Blocked.word() == "blocked"@ && QueryStatus::Allowed.word() == "allowed"@,
        QueryStatus::Cached.word() == "cached"@ && QueryStatus::Upstream.word() == "upstream"@,
        RuleKind::Blacklist.word() == "blacklist"@ && RuleKind::Whitelist.word() == "whitelist"@,
        RuleKind::Blacklist.done() == "blacklisted"@ && RuleKind::Whitelist.done() == "whitelisted"@,
{
}

/// A pattern of nothing but stars is refused because it matches everything; any other
/// refused pattern is named.
pub proof fn refused_patterns_are_named(pattern: Seq<char>, e: FeriteError)
    requires
        pattern_refusal(pattern, e),
    ensures
        (forall|i: int| 0 <= i < pattern.len() ==> #[trigger] pattern[i] == '*') ==> config_error(
            e,
            "wildcard pattern cannot match everything"@,
        ),
        (exists|i: int| 0 <= i < pattern.len() && #[trigger] pattern[i] != '*') ==> e is Config && ("invalid wildcard '"@
            + pattern + "': "@).is_prefix_of(e->Config_0@),
{
}

}
