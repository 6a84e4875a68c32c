//! What is taken over at the start.
use vstd::prelude::*;
use vstd::string::*;

use crate::blocklist::decision_laws::usable_pattern;
use crate::blocklist::engine::{acceptable_entry, BlocklistView};
use crate::blocklist::suffix::normalised;
use crate::startup::{minus, taken_over, with_entries};

verus! {

/// Whether a stored entry can stand for anything: it holds no star, or it is a pattern that
/// can be matched.
pub open spec fn standing(d: Seq<char>) -> bool {
    !d.contains('*') || usable_pattern(d)
}

/// What stored entries add to names or patterns of one kind.
pub open spec fn adds(e: (String, String), kind: Seq<char>, star: bool, d: Seq<char>) -> bool {
    normalised(e.0@) == d && e.1@ == kind && d.contains('*') == star && standing(d)
}

proof fn lemma_standing(d: Seq<char>)
    ensures
        standing(d) <==> acceptable_entry(d),
{
}

/// Every stored entry that can stand for anything counts again after a start: on the
/// whitelist or on the blacklist, as a name or, with a star, as a pattern. Nothing else is
/// added, and nothing is lost.
pub proof fn stored_entries_count_again(v: BlocklistView, entries: Seq<(String, String)>, d: Seq<char>)
    ensures
        ({
            let w = with_entries(v, entries);
            &&& w.whitelist.contains(d) <==> v.whitelist.contains(d) || exists|i: int|
                0 <= i < entries.len() && adds(#[trigger] entries[i], "whitelist"@, false, d)
            &&& w.blacklist.contains(d) <==> v.blacklist.contains(d) || exists|i: int|
                0 <= i < entries.len() && adds(#[trigger] entries[i], "blacklist"@, false, d)
            &&& w.whitelist_wild.contains(d) <==> v.whitelist_wild.contains(d) || exists|i: int|
                0 <= i < entries.len() && adds(#[trigger] entries[i], "whitelist"@, true, d)
            &&& w.blacklist_wild.contains(d) <==> v.blacklist_wild.contains(d) || exists|i: int|
                0 <= i < entries.len() && adds(#[trigger] entries[i], "blacklist"@, true, d)
            &&& w == (BlocklistView {
                whitelist: w.whitelist,
                blacklist: w.blacklist,
                whitelist_wild: w.whitelist_wild,
                blacklist_wild: w.blacklist_wild,
                ..v
            })
        }),
    decreases entries.len(),
{
    reveal_strlit("whitelist");
    reveal_strlit("blacklist");
    assert("whitelist"@[0] != "blacklist"@[0]);
    if entries.len() > 0 {
        let t = entries.drop_last();
        let e = entries.last();
        let n = normalised(e.0@);
        stored_entries_count_again(v, t, d);
        lemma_standing(n);
        lemma_added(entries, "whitelist"@, false, d);
        lemma_added(entries, "blacklist"@, false, d);
        lemma_added(entries, "whitelist"@, true, d);
        lemma_added(entries, "blacklist"@, true, d);
        let before = with_entries(v, t);
        lemma_pushed(before.whitelist_wild, n, d);
        lemma_pushed(before.blacklist_wild, n, d);
    }
}

proof fn lemma_pushed(s: Seq<Seq<char>>, n: Seq<char>, d: Seq<char>)
    ensures
        s.push(n).contains(d) <==> s.contains(d) || d == n,
{
    if s.contains(d) {
        let i = choose|i: int| 0 <= i < s.len() && s[i] == d;
        assert(s.push(n)[i] == d);
    }
    assert(s.push(n)[s.len() as int] == n);
    if s.push(n).contains(d) {
        let i = choose|i: int| 0 <= i < s.push(n).len() && s.push(n)[i] == d;
        if i < s.len() {
            assert(s[i] == d);
        }
    }
}

proof fn lemma_added(entries: Seq<(String, String)>, kind: Seq<char>, star: bool, d: Seq<char>)
    requires
        entries.len() > 0,
    ensures
        (exists|i: int| 0 <= i < entries.len() && adds(#[trigger] entries[i], kind, star, d)) <==> (exists|i: int|
            0 <= i < entries.drop_last().len() && adds(#[trigger] entries.drop_last()[i], kind, star, d)) || adds(
            entries.last(),
            kind,
            star,
            d,
        ),
{
    let t = entries.drop_last();
    if exists|i: int| 0 <= i < t.len() && adds(#[trigger] t[i], kind, star, d) {
        let i = choose|i: int| 0 <= i < t.len() && adds(#[trigger] t[i], kind, star, d);
        assert(entries[i] == t[i]);
    }
    if exists|i: int| 0 <= i < entries.len() && adds(#[trigger] entries[i], kind, star, d) {
        let i = choose|i: int| 0 <= i < entries.len() && adds(#[trigger] entries[i], kind, star, d);
        if i < t.len() {
            assert(t[i] == entries[i]);
        }
    }
    if adds(entries.last(), kind, star, d) {
        assert(adds(entries[entries.len() - 1], kind, star, d));
    }
}

/// Entries are reported as taken over exactly if they can stand for anything and are of a
/// known kind; and allowed queries are those that were neither blocked nor answered from
/// elsewhere.
pub proof fn entries_are_taken_over_by_kind(domain: Seq<char>, kind: Seq<char>, total: int, rest: int)
    ensures
        taken_over(domain, kind) <==> standing(normalised(domain)) && (kind == "whitelist"@ || kind == "blacklist"@),
        total >= rest ==> minus(total, rest) + rest == total,
        total < rest ==> minus(total, rest) == 0,
{
    lemma_standing(normalised(domain));
}

}
