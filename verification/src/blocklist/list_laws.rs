//! What lists bring in, and what is said of them.
use vstd::prelude::*;
use vstd::string::*;
use vstd::utf8::encode_utf8;

use crate::blocklist::cache::{decision_entry, looked_up};
use crate::blocklist::decision_laws::{
    first_file, lemma_flat_map_contains, lemma_matched_sets, lemma_stored, some_key_covers, some_name_covers,
    stands_for,
};
use crate::blocklist::engine::{
    allow_loaded, allow_refreshed, block_loaded, block_refreshed, block_sources, exemption, file_counts, file_stats,
    first_list, first_wild, has_list, kept_stats, list_match, list_source, list_sources, wild_sources, wildcard_source,
    with_enabled, BlocklistView, KeptLists, MatchView, SourceView,
};
use crate::blocklist::loader::{blocked_ip, domain_key, domain_keys, some_blocked, unbracketed, url_rule, UrlCheck};
use crate::blocklist::parser::AdblockStats;
use crate::blocklist::refresh::{
    fresh_domains, result_counts, result_keys, result_stats, sanitized, some_result, ListCaches, ListResult,
};
use crate::blocklist::store::{stored_keys, StoredList};
use crate::blocklist::suffix::{matched_in, matched_in_bytes, normalised};
use crate::blocklist::wildcard::{wildcard_expression, wildcard_matches};
use crate::config::ListConfig;
use crate::dns::answer_laws::lemma_trim_end_char;
use crate::ip::{ip_of_text, IpAddr, Ipv4};
use crate::lru_cache::{after_put, has_key, without_key, Entry};
use crate::text::{flat_map, lines, lower, lower_char, trim_end_char};

verus! {

/// An IPv4 address as one number.
pub open spec fn v4_number(v: Ipv4) -> int {
    ((v.a as int * 256 + v.b as int) * 256 + v.c as int) * 256 + v.d as int
}

/// The IPv4 addresses that lead inside: loopback, private, link-local, shared, multicast,
/// unspecified and broadcast.
pub open spec fn inside_v4(v: Ipv4) -> bool {
    let n = v4_number(v);
    ||| 0x7f000000 <= n <= 0x7fffffff
    ||| 0x0a000000 <= n <= 0x0affffff
    ||| 0xac100000 <= n <= 0xac1fffff
    ||| 0xc0a80000 <= n <= 0xc0a8ffff
    ||| 0xa9fe0000 <= n <= 0xa9feffff
    ||| 0x64400000 <= n <= 0x647fffff
    ||| 0xe0000000 <= n <= 0xefffffff
    ||| n == 0
    ||| n == 0xffffffff
}

/// The addresses that lead inside. Of IPv6 those are loopback, unspecified, multicast,
/// unique-local and link-local, and those that stand for an IPv4 address that does.
pub open spec fn inside(ip: IpAddr) -> bool {
    match ip {
        IpAddr::V4(v) => inside_v4(v),
        IpAddr::V6(v) => {
            let zeros = v.s0 == 0 && v.s1 == 0 && v.s2 == 0 && v.s3 == 0 && v.s4 == 0;
            let low = Ipv4 {
                a: (v.s6 / 256) as u8,
                b: (v.s6 % 256) as u8,
                c: (v.s7 / 256) as u8,
                d: (v.s7 % 256) as u8,
            };
            ||| zeros && v.s5 == 0 && v.s6 == 0 && v.s7 <= 1
            ||| zeros && (v.s5 == 0 || v.s5 == 0xffff) && inside_v4(low)
            ||| 0xff00 <= v.s0
            ||| 0xfc00 <= v.s0 <= 0xfdff
            ||| 0xfe80 <= v.s0 <= 0xfebf
        },
    }
}

proof fn lemma_inside(ip: IpAddr)
    ensures
        blocked_ip(ip) == inside(ip),
{
    assert(forall|v: Ipv4| #[trigger] v4_number(v) == v.a * 0x1000000 + v.b * 0x10000 + v.c * 0x100 + v.d);
}

/// A list's URL is refused if it is not over HTTP, has no host, or its host is an address
/// that leads inside or a name for this machine; with any other address it is accepted,
/// and with any other name the name is looked up, and each of its addresses is held to the
/// same rule.
pub proof fn urls_that_lead_inside_are_refused(
    scheme: Seq<char>,
    host: Option<Seq<char>>,
    h: Seq<char>,
    r: UrlCheck,
    addrs: Seq<IpAddr>,
)
    requires
        url_rule(Some((scheme, host)), r),
        host is Some ==> host->0 == h && !(h.len() > 0 && h[0] == '[') || host->0 == seq!['['] + h + seq![']'],
    ensures
        scheme != "http"@ && scheme != "https"@ ==> r is Refused,
        host is None ==> r is Refused,
        host is Some && (scheme == "http"@ || scheme == "https"@) ==> match ip_of_text(h) {
            Some(ip) => (r is Refused <==> inside(ip)) && (r is Accepted <==> !inside(ip)),
            None => {
                &&& r is Refused <==> lower(h) == "localhost"@ || ".localhost"@.is_suffix_of(lower(h))
                &&& !(r is Refused) ==> r is Resolve && r->Resolve_0@ == lower(h)
            },
        },
        some_blocked(addrs) <==> exists|i: int| 0 <= i < addrs.len() && inside(#[trigger] addrs[i]),
{
    if host is Some {
        let t = seq!['['] + h + seq![']'];
        assert(t.subrange(1, t.len() - 1) =~= h);
        assert(unbracketed(host->0) == h);
    }
    if let Some(ip) = ip_of_text(h) {
        lemma_inside(ip);
    }
    assert forall|i: int| 0 <= i < addrs.len() implies blocked_ip(#[trigger] addrs[i]) == inside(addrs[i]) by {
        lemma_inside(addrs[i]);
    }
}

/// Names are told apart without regard to case and to dots at their end, and nothing else
/// of them is lost.
pub proof fn names_lose_case_and_root_dots(d: Seq<char>)
    ensures
        normalised(d + seq!['.']) == normalised(d),
        normalised(lower(d)) == normalised(d),
        normalised(d).len() <= d.len(),
        forall|i: int| 0 <= i < normalised(d).len() ==> #[trigger] normalised(d)[i] == lower_char(d[i]),
        forall|i: int| normalised(d).len() <= i < d.len() ==> #[trigger] d[i] == '.',
        normalised(d).len() > 0 ==> normalised(d).last() != '.',
{
    let l = lower(d);
    lemma_trim_end_char(l, '.');
    let t = trim_end_char(l, '.');
    assert(l.subrange(0, t.len() as int) == t);
    assert forall|i: int| 0 <= i < t.len() implies #[trigger] t[i] == lower_char(d[i]) by {
        assert(l.subrange(0, t.len() as int)[i] == l[i]);
    }
    assert forall|i: int| t.len() <= i < d.len() implies #[trigger] d[i] == '.' by {
        assert(l[i] == '.');
        assert(l[i] == lower_char(d[i]));
    }
    assert(lower(d + seq!['.']).drop_last() =~= l);
    assert(lower(d + seq!['.']).last() == '.');
    assert(lower(l) =~= l);
}

/// Switching a list on or off changes the first list of that name, and no other.
pub proof fn switches_change_one_list(lists: Seq<ListConfig>, name: Seq<char>, enabled: bool, i: int)
    requires
        0 <= i < lists.len(),
    ensures
        with_enabled(lists, name, enabled).len() == lists.len(),
        lists[i].name@ == name && (forall|j: int| 0 <= j < i ==> (#[trigger] lists[j]).name@ != name) ==> with_enabled(
            lists,
            name,
            enabled,
        )[i] == (ListConfig { enabled, ..lists[i] }),
        lists[i].name@ != name || (exists|j: int| 0 <= j < i && (#[trigger] lists[j]).name@ == name) ==> with_enabled(
            lists,
            name,
            enabled,
        )[i] == lists[i],
        lists[i].name@ == name ==> has_list(lists, name),
    decreases lists.len(),
{
    if lists[0].name@ != name {
        let t = lists.skip(1);
        if i > 0 {
            switches_change_one_list(t, name, enabled, i - 1);
            assert(t[i - 1] == lists[i]);
            if forall|j: int| 0 <= j < i ==> (#[trigger] lists[j]).name@ != name {
                assert forall|j: int| 0 <= j < i - 1 implies (#[trigger] t[j]).name@ != name by {
                    assert(t[j] == lists[j + 1]);
                }
            }
            if exists|j: int| 0 <= j < i && (#[trigger] lists[j]).name@ == name {
                let j = choose|j: int| 0 <= j < i && (#[trigger] lists[j]).name@ == name;
                assert(t[j - 1] == lists[j]);
            }
        } else if t.len() > 0 {
            switches_change_one_list(t, name, enabled, 0);
        }
    }
}

/// The names of a list are its domains without dots at their end.
pub proof fn lists_hold_their_domains(ds: Seq<Seq<char>>, k: Seq<u8>)
    ensures
        domain_keys(ds).contains(k) <==> exists|i: int|
            0 <= i < ds.len() && k == encode_utf8(trim_end_char(#[trigger] ds[i], '.')),
{
    let m = ds.map_values(|d: Seq<char>| domain_key(d));
    if m.contains(k) {
        let i = choose|i: int| 0 <= i < m.len() && m[i] == k;
        assert(k == encode_utf8(trim_end_char(ds[i], '.')));
    }
    if exists|i: int| 0 <= i < ds.len() && k == encode_utf8(trim_end_char(#[trigger] ds[i], '.')) {
        let i = choose|i: int| 0 <= i < ds.len() && k == encode_utf8(trim_end_char(#[trigger] ds[i], '.'));
        assert(m[i] == k);
    }
}

/// A refreshed set holds every name of every list that was read, and no others; and of the
/// results with one name the last gives its count and, of those with statistics, the last
/// its statistics.
pub proof fn refreshed_sets_hold_their_lists(rs: Seq<ListResult>, i: int, n: Seq<char>, k: Seq<u8>)
    requires
        0 <= i < rs.len(),
    ensures
        rs[i].name@.len() > 0 && rs[i].map is Some && rs[i].map->0.keys().contains(k) ==> result_keys(rs).contains(k),
        result_keys(rs).contains(k) ==> exists|j: int|
            0 <= j < rs.len() && (#[trigger] rs[j]).name@.len() > 0 && rs[j].map is Some && rs[j].map->0.keys().contains(k),
        rs[i].name@.len() > 0 && (forall|j: int| i < j < rs.len() ==> (#[trigger] rs[j]).name@ != rs[i].name@)
            ==> result_counts(rs).dom().contains(rs[i].name@) && result_counts(rs)[rs[i].name@] == rs[i].count,
        n.len() == 0 || (forall|j: int| 0 <= j < rs.len() ==> (#[trigger] rs[j]).name@ != n) ==> !result_counts(
            rs,
        ).dom().contains(n) && !result_stats(rs).dom().contains(n),
        rs[i].name@.len() > 0 && rs[i].stats is Some && (forall|j: int|
            i < j < rs.len() ==> (#[trigger] rs[j]).name@ != rs[i].name@ || rs[j].stats is None) ==> result_stats(
            rs,
        ).dom().contains(rs[i].name@) && result_stats(rs)[rs[i].name@] == rs[i].stats->0,
        some_result(rs) <==> exists|j: int| 0 <= j < rs.len() && (#[trigger] rs[j]).name@.len() > 0,
    decreases rs.len(),
{
    let t = rs.drop_last();
    assert(rs.last() == rs[rs.len() - 1]);
    assert(forall|j: int| 0 <= j < t.len() ==> #[trigger] t[j] == rs[j]);
    if i < t.len() {
        refreshed_sets_hold_their_lists(t, i, n, k);
    } else if t.len() > 0 {
        refreshed_sets_hold_their_lists(t, 0, n, k);
    }
}

/// Kept texts count as fresh for twelve hours, unless they hold no domain; each of their
/// lines with anything in it is one.
pub proof fn kept_texts_are_fresh_for_a_while(c: ListCaches, l: Seq<char>)
    ensures
        fresh_domains(c) is Some <==> c.domains is Some && c.domains_age <= 12 * 3600 * 1_000_000_000 && exists|i: int|
            0 <= i < lines(c.domains->0@).len() && (#[trigger] lines(c.domains->0@)[i]).len() > 0,
        fresh_domains(c) is Some ==> (fresh_domains(c)->0.contains(l) <==> lines(c.domains->0@).contains(l) && l.len()
            > 0),
{
    let f = |x: Seq<char>| x.len() > 0;
    if c.domains is Some {
        let ls = lines(c.domains->0@);
        lemma_filtered(ls, f, l);
        if exists|i: int| 0 <= i < ls.len() && (#[trigger] ls[i]).len() > 0 {
            let i = choose|i: int| 0 <= i < ls.len() && (#[trigger] ls[i]).len() > 0;
            assert(f(ls[i]));
            lemma_filtered(ls, f, ls[i]);
            assert(ls.contains(ls[i]));
        }
        if ls.filter(f).len() > 0 {
            let x = ls.filter(f)[0];
            assert(ls.filter(f).contains(x));
            lemma_filtered(ls, f, x);
            let i = choose|i: int| 0 <= i < ls.len() && ls[i] == x;
            assert(ls[i].len() > 0);
        }
    }
}

/// What is left of a sequence are the items that are asked for.
pub broadcast proof fn lemma_filtered<A>(s: Seq<A>, f: spec_fn(A) -> bool, x: A)
    ensures
        #[trigger] s.filter(f).contains(x) <==> s.contains(x) && f(x),
    decreases s.len(),
{
    reveal(Seq::filter);
    if s.len() > 0 {
        let t = s.drop_last();
        lemma_filtered(t, f, x);
        if s.contains(x) && s.last() != x {
            let i = choose|i: int| 0 <= i < s.len() && s[i] == x;
            assert(t[i] == x);
        }
        if t.contains(x) {
            let i = choose|i: int| 0 <= i < t.len() && t[i] == x;
            assert(s[i] == x);
        }
        assert(s[s.len() - 1] == s.last());
        if f(s.last()) {
            let r = t.filter(f);
            assert(s.filter(f) == r.push(s.last()));
            assert(r.push(s.last())[r.len() as int] == s.last());
            if r.contains(x) {
                let i = choose|i: int| 0 <= i < r.len() && r[i] == x;
                assert(r.push(s.last())[i] == x);
            }
            if r.push(s.last()).contains(x) && x != s.last() {
                let i = choose|i: int| 0 <= i < r.push(s.last()).len() && r.push(s.last())[i] == x;
                assert(r[i] == x);
            }
        }
    }
}

/// A decision that was stored is found again: a block for an hour, anything else for five
/// minutes. Expired ones are not found.
pub proof fn decisions_are_remembered(s: Seq<Entry>, capacity: nat, d: Seq<char>, blocked: bool, stored: u64, now: u64)
    requires
        capacity > 0,
        stored + 3600 * 1_000_000_000 <= u64::MAX,
    ensures
        ({
            let after = after_put(s, capacity, decision_entry(d, blocked, stored));
            let life = if blocked {
                3600 * 1_000_000_000int
            } else {
                300 * 1_000_000_000int
            };
            &&& forall|r: Option<bool>, rest: Seq<Entry>|
                now < stored + life && #[trigger] looked_up(after, d, now, r, rest) ==> r == Some(blocked)
            &&& forall|r: Option<bool>, rest: Seq<Entry>|
                now >= stored + life && #[trigger] looked_up(after, d, now, r, rest) ==> r is None
            &&& forall|r: Option<bool>, rest: Seq<Entry>| #[trigger]
                looked_up(without_key(after, d), d, now, r, rest) ==> r is None
        }),
{
    let e = decision_entry(d, blocked, stored);
    let after = after_put(s, capacity, e);
    assert(after[0] == e);
    assert(has_key(after, d));
    let w = without_key(after, d);
    let f = |x: Entry| x.key != d;
    if has_key(w, d) {
        let i = choose|i: int| 0 <= i < w.len() && (#[trigger] w[i]).key == d;
        assert(w.contains(w[i]));
        lemma_filtered(after, f, w[i]);
    }
    assert forall|i: int| 0 <= i < after.len() && (#[trigger] after[i]).key == d implies after[i] == e by {
        if i > 0 {
            if has_key(s, d) || s.len() < capacity {
                let w2 = without_key(s, d);
                assert(after[i] == w2[i - 1]);
                assert(w2.contains(w2[i - 1]));
                lemma_filtered(s, f, w2[i - 1]);
            } else {
                assert(after[i] == s.drop_last()[i - 1]);
                assert(s[i - 1].key == d);
            }
        }
    }
}

/// What two sequences hold together.
pub proof fn lemma_in_sum<A>(a: Seq<A>, b: Seq<A>, x: A)
    ensures
        (a + b).contains(x) <==> a.contains(x) || b.contains(x),
{
    if a.contains(x) {
        let i = choose|i: int| 0 <= i < a.len() && a[i] == x;
        assert((a + b)[i] == x);
    }
    if b.contains(x) {
        let i = choose|i: int| 0 <= i < b.len() && b[i] == x;
        assert((a + b)[a.len() + i] == x);
    }
    if (a + b).contains(x) {
        let i = choose|i: int| 0 <= i < (a + b).len() && (a + b)[i] == x;
        if i < a.len() {
            assert(a[i] == x);
        } else {
            assert(b[i - a.len()] == x);
        }
    }
}

/// The names of a set of which one was found.
proof fn lemma_found(d: Seq<char>, names: Set<Seq<char>>, keys: Set<Seq<u8>>)
    ensures
        matched_in(d, names) matches Some(e) ==> names.contains(e) && stands_for(e, d),
        matched_in_bytes(d, keys) matches Some(e) ==> keys.contains(encode_utf8(e)) && stands_for(e, d),
{
    crate::blocklist::suffix::matched_by_covers(d, |k: Seq<char>| names.contains(k));
    crate::blocklist::suffix::matched_by_covers(d, |k: Seq<char>| keys.contains(encode_utf8(k)));
}

/// An enabled list whose own file holds a name that stands for the domain.
pub open spec fn list_covers(l: ListConfig, files: Seq<StoredList>, e: Seq<char>, d: Seq<char>) -> bool {
    l.enabled && stands_for(e, d) && exists|j: int| #[trigger]
        first_file(files, sanitized(l.name@), j) && files[j].keys.contains(encode_utf8(e))
}

proof fn lemma_list(l: ListConfig, d: Seq<char>, files: Seq<StoredList>)
    ensures
        list_match(l, d, files) matches Some(e) ==> list_covers(l, files, e, d),
        list_match(l, d, files) is Some <==> exists|e: Seq<char>| list_covers(l, files, e, d),
{
    let stem = sanitized(l.name@);
    lemma_stored(files, stem);
    if let Some(keys) = stored_keys(files, stem) {
        lemma_found(d, Set::empty(), keys);
        lemma_matched_sets(d, Set::empty(), keys);
        let j = choose|j: int| #[trigger] first_file(files, stem, j) && files[j].keys == keys;
        if exists|e: Seq<char>| list_covers(l, files, e, d) {
            let e = choose|e: Seq<char>| list_covers(l, files, e, d);
            let i = choose|i: int| #[trigger] first_file(files, stem, i) && files[i].keys.contains(encode_utf8(e));
            crate::blocklist::decision_laws::lemma_unique_file(files, stem, i, j);
            assert(keys.contains(encode_utf8(e)));
            assert(some_key_covers(keys, d));
        }
        if list_match(l, d, files) is Some {
            let e = list_match(l, d, files)->0;
            assert(files[j].keys.contains(encode_utf8(e)));
            assert(list_covers(l, files, e, d));
        }
    }
}

/// What is said to block a domain does: a name or a pattern on the blacklist, a configured
/// pattern, a list with the name in its own file; or, where no list's own file has it, the
/// merged lists.
pub proof fn reported_sources_block(v: BlocklistView, d: Seq<char>, files: Seq<StoredList>, s: SourceView)
    requires
        block_sources(v, d, files).contains(s),
    ensures
        s.kind == "blacklist"@ && s.name == "manual blacklist"@ && v.blacklist.contains(s.matched) && stands_for(
            s.matched,
            d,
        ) || s.kind == "wildcard"@ && s.matched == d && (exists|i: int|
            0 <= i < v.blacklist_wild.len() && wildcard_matches(#[trigger] v.blacklist_wild[i], d) && s.name
                == v.blacklist_wild[i]) || s.kind == "wildcard"@ && s.matched == d && (exists|i: int|
            0 <= i < v.wildcard_block.len() && wildcard_matches(#[trigger] v.wildcard_block[i], d) && s.name
                == wildcard_expression(v.wildcard_block[i])) || s.kind == "list"@ && (exists|i: int|
            0 <= i < v.lists.len() && s.name == (#[trigger] v.lists[i]).name@ && list_covers(v.lists[i], files, s.matched, d))
            || s.kind == "list"@ && s.name == "subscription (source file unavailable)"@ && v.fst.contains(
            encode_utf8(s.matched),
        ) && stands_for(s.matched, d) && (forall|i: int, e: Seq<char>|
            0 <= i < v.lists.len() ==> !#[trigger] list_covers(v.lists[i], files, e, d)),
{
    lemma_source_parts(v, d, files, s);
    lemma_found(d, v.blacklist, v.fst);
    let f = |l: ListConfig| list_source(l, d, files);
    let by_list = flat_map(v.lists, f);
    lemma_flat_map_contains(v.lists, f, s);
    lemma_wild_parts(v.blacklist_wild, false, d, s);
    lemma_wild_parts(v.wildcard_block, true, d, s);
    if by_list.contains(s) {
        let i = choose|i: int| 0 <= i < v.lists.len() && f(#[trigger] v.lists[i]).contains(s);
        lemma_list(v.lists[i], d, files);
    }
    if by_list.len() == 0 {
        assert forall|i: int, e: Seq<char>| 0 <= i < v.lists.len() implies !#[trigger] list_covers(
            v.lists[i],
            files,
            e,
            d,
        ) by {
            lemma_list(v.lists[i], d, files);
            if list_covers(v.lists[i], files, e, d) {
                let x = f(v.lists[i])[0];
                assert(f(v.lists[i]).contains(x));
                lemma_flat_map_contains(v.lists, f, x);
            }
        }
    }
}

proof fn lemma_source_parts(v: BlocklistView, d: Seq<char>, files: Seq<StoredList>, s: SourceView)
    ensures
        block_sources(v, d, files).contains(s) <==> (matched_in(d, v.blacklist) is Some && s == (SourceView {
            kind: "blacklist"@,
            name: "manual blacklist"@,
            matched: matched_in(d, v.blacklist)->0,
        })) || wild_sources(v.blacklist_wild, false, d).contains(s) || wild_sources(v.wildcard_block, true, d).contains(s)
            || list_sources(v, d, files).contains(s),
{
    let a = crate::blocklist::engine::key_source(matched_in(d, v.blacklist), "blacklist"@, "manual blacklist"@);
    let b = wild_sources(v.blacklist_wild, false, d);
    let c = wild_sources(v.wildcard_block, true, d);
    let e = list_sources(v, d, files);
    lemma_in_sum(a, b, s);
    lemma_in_sum(a + b, c, s);
    lemma_in_sum(a + b + c, e, s);
    if matched_in(d, v.blacklist) is Some {
        assert(a[0] == (SourceView {
            kind: "blacklist"@,
            name: "manual blacklist"@,
            matched: matched_in(d, v.blacklist)->0,
        }));
    }
}

proof fn lemma_wild_parts(pats: Seq<Seq<char>>, as_expression: bool, d: Seq<char>, s: SourceView)
    ensures
        wild_sources(pats, as_expression, d).contains(s) <==> s.kind == "wildcard"@ && s.matched == d && exists|i: int|
            0 <= i < pats.len() && wildcard_matches(#[trigger] pats[i], d) && s.name == (if as_expression {
                wildcard_expression(pats[i])
            } else {
                pats[i]
            }),
{
    let f = |p: Seq<char>|
        wildcard_source(
            p,
            if as_expression {
                wildcard_expression(p)
            } else {
                p
            },
            d,
        );
    lemma_flat_map_contains(pats, f, s);
    if exists|i: int| 0 <= i < pats.len() && f(#[trigger] pats[i]).contains(s) {
        let i = choose|i: int| 0 <= i < pats.len() && f(#[trigger] pats[i]).contains(s);
        assert(wildcard_matches(pats[i], d));
    }
    assert forall|i: int|
        0 <= i < pats.len() && wildcard_matches(#[trigger] pats[i], d) && s.kind == "wildcard"@ && s.matched == d && s.name
            == (if as_expression {
            wildcard_expression(pats[i])
        } else {
            pats[i]
        }) implies f(pats[i]).contains(s) by {
        assert(f(pats[i])[0] == s);
    }
}

/// All that blocks a domain is reported: a name on the blacklist, every pattern, and every
/// list with a name for it in its own file.
pub proof fn blocking_sources_are_reported(v: BlocklistView, d: Seq<char>, files: Seq<StoredList>, i: int, e: Seq<char>)
    ensures
        some_name_covers(v.blacklist, d) ==> exists|k: Seq<char>|
            #[trigger] block_sources(v, d, files).contains(
                (SourceView { kind: "blacklist"@, name: "manual blacklist"@, matched: k }),
            ),
        0 <= i < v.blacklist_wild.len() && wildcard_matches(v.blacklist_wild[i], d) ==> block_sources(
            v,
            d,
            files,
        ).contains((SourceView { kind: "wildcard"@, name: v.blacklist_wild[i], matched: d })),
        0 <= i < v.wildcard_block.len() && wildcard_matches(v.wildcard_block[i], d) ==> block_sources(
            v,
            d,
            files,
        ).contains((SourceView { kind: "wildcard"@, name: wildcard_expression(v.wildcard_block[i]), matched: d })),
        0 <= i < v.lists.len() && list_covers(v.lists[i], files, e, d) ==> exists|k: Seq<char>|
            #[trigger] block_sources(v, d, files).contains(
                (SourceView { kind: "list"@, name: v.lists[i].name@, matched: k }),
            ),
{
    lemma_matched_sets(d, v.blacklist, v.fst);
    if some_name_covers(v.blacklist, d) {
        let k = matched_in(d, v.blacklist)->0;
        let s = SourceView { kind: "blacklist"@, name: "manual blacklist"@, matched: k };
        lemma_source_parts(v, d, files, s);
        assert(block_sources(v, d, files).contains(s));
    }
    if 0 <= i < v.blacklist_wild.len() {
        let s = SourceView { kind: "wildcard"@, name: v.blacklist_wild[i], matched: d };
        lemma_source_parts(v, d, files, s);
        lemma_wild_parts(v.blacklist_wild, false, d, s);
    }
    if 0 <= i < v.wildcard_block.len() {
        let s = SourceView { kind: "wildcard"@, name: wildcard_expression(v.wildcard_block[i]), matched: d };
        lemma_source_parts(v, d, files, s);
        lemma_wild_parts(v.wildcard_block, true, d, s);
    }
    if 0 <= i < v.lists.len() && list_covers(v.lists[i], files, e, d) {
        lemma_list(v.lists[i], d, files);
        let k = list_match(v.lists[i], d, files)->0;
        let s = SourceView { kind: "list"@, name: v.lists[i].name@, matched: k };
        let f = |l: ListConfig| list_source(l, d, files);
        assert(f(v.lists[i])[0] == s);
        assert(f(v.lists[i]).contains(s));
        lemma_flat_map_contains(v.lists, f, s);
        lemma_source_parts(v, d, files, s);
        assert(block_sources(v, d, files).contains(s));
    }
}

/// An exemption is put down to a name on the whitelist; without one to the first pattern
/// that matches; without one to the first enabled list with a name for it in its own file;
/// and else to the merged lists.
pub proof fn exemptions_are_put_down_to_their_reason(v: BlocklistView, d: Seq<char>, files: Seq<StoredList>)
    ensures
        ({
            let x = exemption(v, d, files);
            let pats = v.whitelist_wild;
            &&& some_name_covers(v.whitelist, d) ==> x is Some && x->0.list is None && x->0.entry == x->0.matched
                && v.whitelist.contains(x->0.entry) && stands_for(x->0.entry, d)
            &&& !some_name_covers(v.whitelist, d) ==> {
                &&& forall|i: int|
                    0 <= i < pats.len() && wildcard_matches(#[trigger] pats[i], d) && (forall|j: int|
                        0 <= j < i ==> !wildcard_matches(#[trigger] pats[j], d)) ==> x == Some(
                        MatchView { entry: pats[i], matched: d, list: None },
                    )
                &&& (forall|j: int| 0 <= j < pats.len() ==> !wildcard_matches(#[trigger] pats[j], d)) ==> {
                    &&& forall|i: int, e: Seq<char>|
                        0 <= i < v.allow_lists.len() && #[trigger] list_covers(v.allow_lists[i], files, e, d) && (forall|
                            j: int,
                            g: Seq<char>,
                        |
                            0 <= j < i ==> !#[trigger] list_covers(v.allow_lists[j], files, g, d)) ==> x is Some
                            && x->0.list == Some(v.allow_lists[i].name@) && x->0.entry == x->0.matched && list_covers(
                            v.allow_lists[i],
                            files,
                            x->0.entry,
                            d,
                        )
                    &&& (forall|i: int, e: Seq<char>|
                        0 <= i < v.allow_lists.len() ==> !#[trigger] list_covers(v.allow_lists[i], files, e, d)) ==> {
                        &&& x is Some <==> some_key_covers(v.allow_fst, d)
                        &&& x is Some ==> x->0.list == Some("allowlist subscription (source file unavailable)"@)
                            && x->0.entry == x->0.matched && v.allow_fst.contains(encode_utf8(x->0.entry)) && stands_for(
                            x->0.entry,
                            d,
                        )
                    }
                }
            }
        }),
{
    lemma_matched_sets(d, v.whitelist, v.allow_fst);
    lemma_found(d, v.whitelist, v.allow_fst);
    lemma_first_pattern(v.whitelist_wild, d);
    lemma_first_of_lists(v.allow_lists, d, files);
}

proof fn lemma_first_pattern(pats: Seq<Seq<char>>, d: Seq<char>)
    ensures
        match first_wild(pats, d) {
            Some(p) => exists|i: int|
                0 <= i < pats.len() && wildcard_matches(#[trigger] pats[i], d) && p == pats[i] && forall|j: int|
                    0 <= j < i ==> !wildcard_matches(#[trigger] pats[j], d),
            None => forall|j: int| 0 <= j < pats.len() ==> !wildcard_matches(#[trigger] pats[j], d),
        },
    decreases pats.len(),
{
    if pats.len() > 0 {
        let t = pats.skip(1);
        if wildcard_matches(pats[0], d) {
            assert(pats[0] == pats[0]);
        } else {
            lemma_first_pattern(t, d);
            if first_wild(t, d) is Some {
                let i = choose|i: int|
                    0 <= i < t.len() && wildcard_matches(#[trigger] t[i], d) && first_wild(t, d)->0 == t[i] && forall|j: int|
                        0 <= j < i ==> !wildcard_matches(#[trigger] t[j], d);
                assert(pats[i + 1] == t[i]);
                assert forall|j: int| 0 <= j < i + 1 implies !wildcard_matches(#[trigger] pats[j], d) by {
                    if j > 0 {
                        assert(t[j - 1] == pats[j]);
                    }
                }
            } else {
                assert forall|j: int| 0 <= j < pats.len() implies !wildcard_matches(#[trigger] pats[j], d) by {
                    if j > 0 {
                        assert(t[j - 1] == pats[j]);
                    }
                }
            }
        }
    }
}

proof fn lemma_first_of_lists(lists: Seq<ListConfig>, d: Seq<char>, files: Seq<StoredList>)
    ensures
        match first_list(lists, d, files) {
            Some((name, k)) => exists|i: int|
                0 <= i < lists.len() && name == (#[trigger] lists[i]).name@ && list_covers(lists[i], files, k, d)
                    && forall|j: int, e: Seq<char>| 0 <= j < i ==> !#[trigger] list_covers(lists[j], files, e, d),
            None => forall|j: int, e: Seq<char>|
                0 <= j < lists.len() ==> !#[trigger] list_covers(lists[j], files, e, d),
        },
    decreases lists.len(),
{
    if lists.len() > 0 {
        let t = lists.skip(1);
        lemma_list(lists[0], d, files);
        if list_match(lists[0], d, files) is Some {
            assert(lists[0] == lists[0]);
        } else {
            lemma_first_of_lists(t, d, files);
            if let Some((name, k)) = first_list(t, d, files) {
                let i = choose|i: int|
                    0 <= i < t.len() && name == (#[trigger] t[i]).name@ && list_covers(t[i], files, k, d) && forall|
                        j: int,
                        e: Seq<char>,
                    |
                        0 <= j < i ==> !#[trigger] list_covers(t[j], files, e, d);
                assert(lists[i + 1] == t[i]);
                assert forall|j: int, e: Seq<char>| 0 <= j < i + 1 implies !#[trigger] list_covers(
                    lists[j],
                    files,
                    e,
                    d,
                ) by {
                    if j > 0 {
                        assert(t[j - 1] == lists[j]);
                        assert(!list_covers(t[j - 1], files, e, d));
                    }
                }
            } else {
                assert forall|j: int, e: Seq<char>| 0 <= j < lists.len() implies !#[trigger] list_covers(
                    lists[j],
                    files,
                    e,
                    d,
                ) by {
                    if j > 0 {
                        assert(t[j - 1] == lists[j]);
                        assert(!list_covers(t[j - 1], files, e, d));
                    }
                }
            }
        }
    }
}

/// A list is counted by the names in its own file, and its statistics are the first that
/// were kept under its file name. Nothing is said of lists without a file, or of names
/// without a list.
pub proof fn kept_files_are_counted(
    lists: Seq<ListConfig>,
    files: Seq<StoredList>,
    stats: Seq<(String, AdblockStats)>,
    n: Seq<char>,
    j: int,
)
    ensures
        has_list(lists, n) && first_file(files, sanitized(n), j) ==> file_counts(lists, files).dom().contains(n)
            && file_counts(lists, files)[n] == files[j].keys.len() as usize,
        !has_list(lists, n) || (forall|i: int| !#[trigger] first_file(files, sanitized(n), i)) ==> !file_counts(
            lists,
            files,
        ).dom().contains(n),
        has_list(lists, n) && 0 <= j < stats.len() && stats[j].0@ == sanitized(n) && (forall|i: int|
            0 <= i < j ==> (#[trigger] stats[i]).0@ != sanitized(n)) ==> file_stats(lists, stats).dom().contains(n)
            && file_stats(lists, stats)[n] == stats[j].1,
        !has_list(lists, n) || (forall|i: int| 0 <= i < stats.len() ==> (#[trigger] stats[i]).0@ != sanitized(n))
            ==> !file_stats(lists, stats).dom().contains(n),
    decreases lists.len(),
{
    lemma_stored(files, sanitized(n));
    if first_file(files, sanitized(n), j) && stored_keys(files, sanitized(n)) is Some {
        let i = choose|i: int| #[trigger]
            first_file(files, sanitized(n), i) && files[i].keys == stored_keys(files, sanitized(n))->0;
        crate::blocklist::decision_laws::lemma_unique_file(files, sanitized(n), i, j);
    }
    lemma_kept(stats, sanitized(n), j);
    if lists.len() > 0 {
        let t = lists.drop_last();
        kept_files_are_counted(t, files, stats, n, j);
        assert(lists[lists.len() - 1] == lists.last());
        if has_list(lists, n) && lists.last().name@ != n {
            let i = choose|i: int| 0 <= i < lists.len() && (#[trigger] lists[i]).name@ == n;
            assert(t[i] == lists[i]);
        }
        if has_list(t, n) {
            let i = choose|i: int| 0 <= i < t.len() && (#[trigger] t[i]).name@ == n;
            assert(lists[i] == t[i]);
        }
    }
}

proof fn lemma_kept(stats: Seq<(String, AdblockStats)>, stem: Seq<char>, j: int)
    ensures
        0 <= j < stats.len() && stats[j].0@ == stem && (forall|i: int| 0 <= i < j ==> (#[trigger] stats[i]).0@ != stem)
            ==> kept_stats(stats, stem) == Some(stats[j].1),
        (forall|i: int| 0 <= i < stats.len() ==> (#[trigger] stats[i]).0@ != stem) ==> kept_stats(stats, stem) is None,
    decreases stats.len(),
{
    if stats.len() > 0 && stats[0].0@ != stem {
        let t = stats.skip(1);
        lemma_kept(t, stem, j - 1);
        if 0 <= j < stats.len() && stats[j].0@ == stem && (forall|i: int|
            0 <= i < j ==> (#[trigger] stats[i]).0@ != stem) {
            assert(t[j - 1] == stats[j]);
            assert forall|i: int| 0 <= i < j - 1 implies (#[trigger] t[i]).0@ != stem by {
                assert(t[i] == stats[i + 1]);
            }
        }
        if forall|i: int| 0 <= i < stats.len() ==> (#[trigger] stats[i]).0@ != stem {
            assert forall|i: int| 0 <= i < t.len() implies (#[trigger] t[i]).0@ != stem by {
                assert(t[i] == stats[i + 1]);
            }
        }
    }
}

/// What was kept on disk is taken over: the merged lists of either kind, with their counts
/// and statistics unless there are none. Nothing that was configured or entered by hand
/// changes.
pub proof fn kept_lists_are_taken_over(v: BlocklistView, block: KeptLists, allow: KeptLists)
    requires
        block.merged is Some,
    ensures
        ({
            let w = allow_loaded(block_loaded(v, block, allow.files@), allow);
            let counts = file_counts(v.lists, block.files@);
            let stats = file_stats(v.lists, block.stats@);
            let allow_counts = file_counts(v.allow_lists, allow.files@);
            let allow_stats = file_stats(v.allow_lists, allow.stats@);
            &&& w.fst == block.merged->0.keys()
            &&& w.allow_fst == (if allow.merged is Some {
                allow.merged->0.keys()
            } else {
                v.allow_fst
            })
            &&& (exists|n: Seq<char>| #[trigger] counts.dom().contains(n)) ==> w.domain_counts == counts
            &&& (exists|n: Seq<char>| #[trigger] stats.dom().contains(n)) ==> w.adblock_stats == stats
            &&& counts.dom() =~= Set::<Seq<char>>::empty() ==> w.domain_counts == v.domain_counts
            &&& stats.dom() =~= Set::<Seq<char>>::empty() ==> w.adblock_stats == v.adblock_stats
            &&& allow.merged is Some && (exists|n: Seq<char>| #[trigger] allow_counts.dom().contains(n))
                ==> w.allow_domain_counts == allow_counts
            &&& allow.merged is Some && (exists|n: Seq<char>| #[trigger] allow_stats.dom().contains(n))
                ==> w.allow_adblock_stats == allow_stats
            &&& allow.merged is None || allow_counts.dom() =~= Set::<Seq<char>>::empty() ==> w.allow_domain_counts
                == v.allow_domain_counts
            &&& allow.merged is None || allow_stats.dom() =~= Set::<Seq<char>>::empty() ==> w.allow_adblock_stats
                == v.allow_adblock_stats
            &&& same_entries(v, w)
        }),
{
}

/// Two states with the same configuration and the same entries made by hand.
pub open spec fn same_entries(v: BlocklistView, w: BlocklistView) -> bool {
    &&& v.enabled == w.enabled
    &&& v.wildcard_block == w.wildcard_block
    &&& v.profiles_config == w.profiles_config
    &&& v.client_bypass == w.client_bypass
    &&& v.whitelist == w.whitelist
    &&& v.whitelist_wild == w.whitelist_wild
    &&& v.blacklist == w.blacklist
    &&& v.blacklist_wild == w.blacklist_wild
    &&& v.lists == w.lists
    &&& v.allow_lists == w.allow_lists
    &&& v.local_zones == w.local_zones
}

/// A refresh takes over what was read, of the allowlists only where that succeeded, and
/// changes nothing that was configured or entered by hand.
pub proof fn refreshed_lists_are_taken_over(
    v: BlocklistView,
    block: crate::blocklist::refresh::ListSetRefresh,
    allow: Option<crate::error::Result<crate::blocklist::refresh::ListSetRefresh>>,
)
    ensures
        ({
            let w = allow_refreshed(block_refreshed(v, block), allow);
            &&& w.fst == block.fst.keys()
            &&& w.domain_counts == block.counts@
            &&& w.adblock_stats == block.stats@
            &&& (allow is Some && allow->0 is Ok) ==> w.allow_fst == allow->0->Ok_0.fst.keys() && w.allow_domain_counts
                == allow->0->Ok_0.counts@ && w.allow_adblock_stats == allow->0->Ok_0.stats@
            &&& !(allow is Some && allow->0 is Ok) ==> w.allow_fst == v.allow_fst && w.allow_domain_counts
                == v.allow_domain_counts && w.allow_adblock_stats == v.allow_adblock_stats
            &&& same_entries(v, w)
        }),
{
}

}
