//! What is shown of clients and queries.
use vstd::prelude::*;
use vstd::string::*;

use crate::api::clients::{
    alias_outcome, busiest, bypasses, clients_all_time, counted, device_bypasses, fresh_group, group_index, grouped,
    ranked, ranking_sorts, row_for, window, with_all_unique, with_row, AliasKey, AliasPayload, AliasRequest, DeviceStat,
    GroupView, ListClientsParams,
};
use crate::api::queries::{
    client_ips, has_id, listed, not_among, planned, shown_limit, supplemented, EnrichedEntry, ListQueriesParams,
    QueryPlan,
};
use crate::api::stats::{
    counted_ips, entries_of, first, named_queries, refused_queries, summary_ips, top_limit, top_rows, TopClientEntry,
};
use crate::blocklist::engine::BlocklistView;
use crate::blocklist::list_laws::lemma_filtered;
use crate::clients::registry::{device_name, mac_behind, name_of, RegistryView};
use crate::clients::{client_ip, client_key, mac_of_text, mac_text, unmapped};
use crate::dns::types::{QueryEntry, QueryStatus};
use crate::error::{config_error, Result};
use crate::text::{split, texts, trim};

verus! {

/// The queries of all rows under one name.
pub open spec fn total_under(rows: Seq<GroupView>, n: Seq<char>) -> int
    decreases rows.len(),
{
    if rows.len() == 0 {
        0
    } else {
        total_under(rows.drop_last(), n) + (if rows.last().name == n {
            rows.last().total as int
        } else {
            0
        })
    }
}

/// The refused queries of all rows under one name.
pub open spec fn blocked_under(rows: Seq<GroupView>, n: Seq<char>) -> int
    decreases rows.len(),
{
    if rows.len() == 0 {
        0
    } else {
        blocked_under(rows.drop_last(), n) + (if rows.last().name == n {
            rows.last().blocked as int
        } else {
            0
        })
    }
}

/// What a group says of the rows under its name: it adds up their queries, holds all their
/// addresses and no others, was seen when the last of them was, and was given a name, or is
/// not filtered, if one of them is.
#[verifier::opaque]
pub open spec fn stands_for_rows(rows: Seq<GroupView>, g: GroupView) -> bool {
    &&& exists|i: int| 0 <= i < rows.len() && (#[trigger] rows[i]).name == g.name
    &&& g.total == total_under(rows, g.name)
    &&& g.blocked == blocked_under(rows, g.name)
    &&& forall|i: int| 0 <= i < rows.len() && (#[trigger] rows[i]).name == g.name ==> rows[i].last_seen <= g.last_seen
    &&& g.last_seen == 0 || exists|i: int|
        0 <= i < rows.len() && (#[trigger] rows[i]).name == g.name && rows[i].last_seen == g.last_seen
    &&& g.is_alias <==> exists|i: int| 0 <= i < rows.len() && (#[trigger] rows[i]).name == g.name && rows[i].is_alias
    &&& g.blocking_bypassed <==> exists|i: int|
        0 <= i < rows.len() && (#[trigger] rows[i]).name == g.name && rows[i].blocking_bypassed
    &&& forall|x: Seq<char>| #[trigger]
        g.ips.contains(x) <==> exists|i: int|
            0 <= i < rows.len() && (#[trigger] rows[i]).name == g.name && rows[i].ips.contains(x)
    &&& forall|x: Seq<char>| #[trigger]
        g.macs.contains(x) <==> exists|i: int|
            0 <= i < rows.len() && (#[trigger] rows[i]).name == g.name && rows[i].macs.contains(x)
}

proof fn lemma_unique_contains(s: Seq<Seq<char>>, xs: Seq<Seq<char>>, x: Seq<char>)
    ensures
        with_all_unique(s, xs).contains(x) <==> s.contains(x) || xs.contains(x),
        s.no_duplicates() ==> with_all_unique(s, xs).no_duplicates(),
    decreases xs.len(),
{
    if xs.len() > 0 {
        let t = xs.drop_last();
        lemma_unique_contains(s, t, x);
        let u = with_all_unique(s, t);
        if u.contains(x) {
            let i = choose|i: int| 0 <= i < u.len() && u[i] == x;
            assert(u.push(xs.last())[i] == x);
        }
        assert(u.push(xs.last())[u.len() as int] == xs.last());
        if xs.contains(x) && x != xs.last() {
            let i = choose|i: int| 0 <= i < xs.len() && xs[i] == x;
            assert(t[i] == x);
        }
        if t.contains(x) {
            let i = choose|i: int| 0 <= i < t.len() && t[i] == x;
            assert(xs[i] == x);
        }
        assert(xs[xs.len() - 1] == xs.last());
        if u.push(xs.last()).contains(x) && x != xs.last() {
            let i = choose|i: int| 0 <= i < u.push(xs.last()).len() && u.push(xs.last())[i] == x;
            assert(u[i] == x);
        }
    }
}

proof fn lemma_index(gs: Seq<GroupView>, n: Seq<char>)
    ensures
        0 <= group_index(gs, n) <= gs.len(),
        group_index(gs, n) < gs.len() ==> gs[group_index(gs, n)].name == n,
        forall|i: int| 0 <= i < group_index(gs, n) ==> (#[trigger] gs[i]).name != n,
    decreases gs.len(),
{
    if gs.len() > 0 {
        let t = gs.drop_last();
        lemma_index(t, n);
        assert forall|i: int| 0 <= i < group_index(gs, n) implies (#[trigger] gs[i]).name != n by {
            if i < t.len() {
                assert(t[i] == gs[i]);
            }
        }
    }
}

proof fn lemma_under(rows: Seq<GroupView>, n: Seq<char>)
    ensures
        0 <= total_under(rows, n) <= counted(rows).0,
        0 <= blocked_under(rows, n) <= counted(rows).1,
        (forall|i: int| 0 <= i < rows.len() ==> (#[trigger] rows[i]).name != n) ==> total_under(rows, n) == 0
            && blocked_under(rows, n) == 0,
    decreases rows.len(),
{
    if rows.len() > 0 {
        let t = rows.drop_last();
        lemma_under(t, n);
        assert(rows[rows.len() - 1] == rows.last());
        assert(forall|i: int| 0 <= i < t.len() ==> #[trigger] t[i] == rows[i]);
    }
}

/// What more a group holds with one row more.
proof fn lemma_row_added(t: Seq<GroupView>, row: GroupView, g: GroupView, unique_ips: bool)
    requires
        g.name == row.name,
        stands_for_rows(t, g) || ((forall|i: int| 0 <= i < t.len() ==> (#[trigger] t[i]).name != row.name) && g
            == fresh_group(row)),
        counted(t.push(row)).0 <= u64::MAX,
        counted(t.push(row)).1 <= u64::MAX,
    ensures
        stands_for_rows(t.push(row), with_row(g, row, unique_ips)),
{
    reveal(stands_for_rows);
    let rows = t.push(row);
    let n = row.name;
    let h = with_row(g, row, unique_ips);
    assert(rows.drop_last() =~= t);
    lemma_under(t, n);
    lemma_under(rows, n);
    assert(rows[t.len() as int] == row);
    assert(forall|i: int| 0 <= i < t.len() ==> #[trigger] rows[i] == t[i]);
    assert forall|x: Seq<char>| #[trigger] h.ips.contains(x) <==> g.ips.contains(x) || row.ips.contains(x) by {
        if unique_ips {
            lemma_unique_contains(g.ips, row.ips, x);
        } else {
            crate::blocklist::list_laws::lemma_in_sum(g.ips, row.ips, x);
        }
    }
    assert forall|x: Seq<char>| #[trigger] h.macs.contains(x) <==> g.macs.contains(x) || row.macs.contains(x) by {
        lemma_unique_contains(g.macs, row.macs, x);
    }
    if stands_for_rows(t, g) {
        assert forall|x: Seq<char>| #[trigger] h.ips.contains(x) <==> exists|i: int|
            0 <= i < rows.len() && (#[trigger] rows[i]).name == n && rows[i].ips.contains(x) by {
            if g.ips.contains(x) {
                let i = choose|i: int| 0 <= i < t.len() && (#[trigger] t[i]).name == n && t[i].ips.contains(x);
                assert(rows[i].ips.contains(x));
            }
        }
        assert forall|x: Seq<char>| #[trigger] h.macs.contains(x) <==> exists|i: int|
            0 <= i < rows.len() && (#[trigger] rows[i]).name == n && rows[i].macs.contains(x) by {
            if g.macs.contains(x) {
                let i = choose|i: int| 0 <= i < t.len() && (#[trigger] t[i]).name == n && t[i].macs.contains(x);
                assert(rows[i].macs.contains(x));
            }
        }
        if g.is_alias {
            let i = choose|i: int| 0 <= i < t.len() && (#[trigger] t[i]).name == n && t[i].is_alias;
            assert(rows[i].is_alias);
        }
        if g.blocking_bypassed {
            let i = choose|i: int| 0 <= i < t.len() && (#[trigger] t[i]).name == n && t[i].blocking_bypassed;
            assert(rows[i].blocking_bypassed);
        }
        if g.last_seen != 0 {
            let i = choose|i: int| 0 <= i < t.len() && (#[trigger] t[i]).name == n && t[i].last_seen == g.last_seen;
            assert(rows[i].last_seen == g.last_seen);
        }
    }
}

/// Rows of other names change nothing.
proof fn lemma_other_row(t: Seq<GroupView>, row: GroupView, g: GroupView)
    requires
        g.name != row.name,
        stands_for_rows(t, g),
    ensures
        stands_for_rows(t.push(row), g),
{
    reveal(stands_for_rows);
    let rows = t.push(row);
    let n = g.name;
    assert(rows.drop_last() =~= t);
    assert(rows[t.len() as int] == row);
    assert(forall|i: int| 0 <= i < t.len() ==> #[trigger] rows[i] == t[i]);
    let i = choose|i: int| 0 <= i < t.len() && (#[trigger] t[i]).name == n;
    assert(rows[i].name == n);
    if g.is_alias {
        let i = choose|i: int| 0 <= i < t.len() && (#[trigger] t[i]).name == n && t[i].is_alias;
        assert(rows[i].is_alias);
    }
    if g.blocking_bypassed {
        let i = choose|i: int| 0 <= i < t.len() && (#[trigger] t[i]).name == n && t[i].blocking_bypassed;
        assert(rows[i].blocking_bypassed);
    }
    if g.last_seen != 0 {
        let i = choose|i: int| 0 <= i < t.len() && (#[trigger] t[i]).name == n && t[i].last_seen == g.last_seen;
        assert(rows[i].last_seen == g.last_seen);
    }
    assert forall|x: Seq<char>| #[trigger] g.ips.contains(x) <==> exists|i: int|
        0 <= i < rows.len() && (#[trigger] rows[i]).name == n && rows[i].ips.contains(x) by {
        if g.ips.contains(x) {
            let i = choose|i: int| 0 <= i < t.len() && (#[trigger] t[i]).name == n && t[i].ips.contains(x);
            assert(rows[i].ips.contains(x));
        }
    }
    assert forall|x: Seq<char>| #[trigger] g.macs.contains(x) <==> exists|i: int|
        0 <= i < rows.len() && (#[trigger] rows[i]).name == n && rows[i].macs.contains(x) by {
        if g.macs.contains(x) {
            let i = choose|i: int| 0 <= i < t.len() && (#[trigger] t[i]).name == n && t[i].macs.contains(x);
            assert(rows[i].macs.contains(x));
        }
    }
}

/// Clients are grouped by name: there is one group for every name among the rows, and it
/// stands for the rows under that name.
pub proof fn rows_are_grouped_by_name(rows: Seq<GroupView>, unique_ips: bool)
    requires
        counted(rows).0 <= u64::MAX,
        counted(rows).1 <= u64::MAX,
    ensures
        forall|i: int| 0 <= i < grouped(rows, unique_ips).len() ==> stands_for_rows(rows, #[trigger] grouped(rows, unique_ips)[i]),
        forall|i: int, j: int|
            0 <= i < j < grouped(rows, unique_ips).len() ==> (#[trigger] grouped(rows, unique_ips)[i]).name != (
            #[trigger] grouped(rows, unique_ips)[j]).name,
        forall|i: int|
            0 <= i < rows.len() ==> exists|j: int|
                0 <= j < grouped(rows, unique_ips).len() && (#[trigger] grouped(rows, unique_ips)[j]).name == (
                #[trigger] rows[i]).name,
    decreases rows.len(),
{
    if rows.len() > 0 {
        let t = rows.drop_last();
        let row = rows.last();
        assert(t.push(row) =~= rows);
        lemma_under(rows, row.name);
        rows_are_grouped_by_name(t, unique_ips);
        let gs = grouped(t, unique_ips);
        let after = grouped(rows, unique_ips);
        lemma_index(gs, row.name);
        let k = group_index(gs, row.name);
        assert forall|i: int| 0 <= i < after.len() implies stands_for_rows(rows, #[trigger] after[i]) by {
            if i == k {
                if k < gs.len() {
                    assert(stands_for_rows(t, gs[k]));
                    lemma_row_added(t, row, gs[k], unique_ips);
                } else {
                    assert forall|m: int| 0 <= m < t.len() implies (#[trigger] t[m]).name != row.name by {
                        let j = choose|j: int| 0 <= j < gs.len() && (#[trigger] gs[j]).name == t[m].name;
                        assert(gs[j].name != row.name);
                    }
                    lemma_row_added(t, row, fresh_group(row), unique_ips);
                }
            } else {
                assert(after[i] == gs[i]);
                assert(stands_for_rows(t, gs[i]));
                if gs[i].name == row.name {
                    assert(k < gs.len());
                }
                lemma_other_row(t, row, gs[i]);
            }
        }
        assert forall|i: int| 0 <= i < rows.len() implies exists|j: int|
            0 <= j < after.len() && (#[trigger] after[j]).name == (#[trigger] rows[i]).name by {
            if i < t.len() {
                assert(t[i] == rows[i]);
                let j = choose|j: int| 0 <= j < gs.len() && (#[trigger] gs[j]).name == t[i].name;
                assert(after[j].name == gs[j].name);
            } else {
                assert(after[k].name == row.name);
            }
        }
    }
}

/// Of the groups those with the most queries are shown, from the largest total to the
/// smallest: none that is left out has more than one that is shown.
pub proof fn the_busiest_are_shown(gs: Seq<GroupView>, limit: usize)
    ensures
        busiest(gs, limit).len() == (if gs.len() <= limit {
            gs.len() as int
        } else {
            limit as int
        }),
        forall|i: int, j: int|
            0 <= i <= j < busiest(gs, limit).len() ==> (#[trigger] busiest(gs, limit)[i]).total >= (#[trigger] busiest(
                gs,
                limit,
            )[j]).total,
        exists|rest: Seq<GroupView>|
            (busiest(gs, limit) + rest).to_multiset() == gs.to_multiset() && forall|i: int, j: int|
                0 <= i < busiest(gs, limit).len() && 0 <= j < rest.len() ==> (#[trigger] busiest(gs, limit)[i]).total >= (
                #[trigger] rest[j]).total,
{
    ranking_sorts(gs);
    let r = ranked(gs);
    let b = busiest(gs, limit);
    let rest = r.skip(b.len() as int);
    assert(b + rest =~= r);
    assert forall|i: int, j: int| 0 <= i < b.len() && 0 <= j < rest.len() implies (#[trigger] b[i]).total >= (
    #[trigger] rest[j]).total by {
        assert(r[i].total >= r[b.len() + j].total);
    }
}

/// A window ends now and reaches back by the asked hours, from one hour to a week, and by
/// a day where none are asked; over all time it reaches back to the beginning.
pub proof fn windows_reach_back(all: bool, hours: Option<u64>, now: i64, p: ListClientsParams)
    requires
        now >= 0,
    ensures
        window(all, hours, now).0 == now,
        all ==> window(all, hours, now).1 == 0,
        !all && hours is None ==> window(all, hours, now).1 == now - 24 * 3600,
        !all && hours is Some && 1 <= hours->0 <= 7 * 24 ==> window(all, hours, now).1 == now - hours->0 * 3600,
        !all && hours == Some(0u64) ==> window(all, hours, now).1 == now - 3600,
        !all && hours is Some && hours->0 > 7 * 24 ==> window(all, hours, now).1 == now - 7 * 24 * 3600,
        clients_all_time(p) <==> p.all_time == Some(true) || p.hours is None || p.hours == Some(0u64),
{
}

/// How many are shown where nothing is asked, and at most.
pub proof fn limits_are_kept(n: usize)
    ensures
        top_limit(None) == 20,
        top_limit(Some(n)) == (if n <= 200 {
            n
        } else {
            200
        }),
        shown_limit(None) == 100,
        shown_limit(Some(n)) == (if n <= 1000 {
            n
        } else {
            1000
        }),
        crate::api::stats::SUMMARY_CLIENTS == 10,
        crate::api::stats::SUMMARY_QUERIES == 20,
        crate::api::stats::SUMMARY_SCAN == 500,
{
}

/// A busy address is shown under its name, if it has one, else as it is, with the device
/// behind it.
pub proof fn busy_addresses_go_by_their_names(v: RegistryView, counts: Seq<(String, u64)>, i: int)
    requires
        0 <= i < counts.len(),
    ensures
        top_rows(v, counts).len() == counts.len(),
        ({
            let r = top_rows(v, counts)[i];
            let a = counts[i].0@;
            &&& r.total == counts[i].1
            &&& r.ips == seq![a]
            &&& match client_ip(a) {
                Some(x) => {
                    &&& r.name == (match name_of(v, unmapped(x)) {
                        Some(n) => n,
                        None => a,
                    })
                    &&& mac_behind(v, unmapped(x)) matches Some(m) ==> r.macs == seq![mac_text(m)]
                    &&& mac_behind(v, unmapped(x)) is None ==> r.macs.len() == 0
                },
                None => r.name == a && r.macs.len() == 0,
            }
        }),
{
}

/// The summary is about the last twenty queries, and the last twenty refused ones among the
/// last five hundred; each is shown with the name of its client.
pub proof fn summaries_show_the_last_queries(
    v: RegistryView,
    shown: Seq<EnrichedEntry>,
    recent: Seq<QueryEntry>,
    i: int,
    e: QueryEntry,
)
    requires
        named_queries(v, shown, first(recent, 20)),
        0 <= i < recent.len(),
    ensures
        shown.len() == (if recent.len() <= 20 {
            recent.len() as int
        } else {
            20
        }),
        i < 20 ==> shown[i].entry == recent[i] && match client_ip(recent[i].client_ip@) {
            Some(a) => name_of(v, unmapped(a)) == (match shown[i].client_name {
                Some(n) => Some(n@),
                None => None,
            }),
            None => shown[i].client_name is None,
        },
        refused_queries(recent).contains(e) <==> recent.contains(e) && e.status == QueryStatus::Blocked,
{
    lemma_filtered(recent, |q: QueryEntry| q.status == QueryStatus::Blocked, e);
}

/// Recent queries are topped up from the stored ones: the recent ones stay in front, none
/// comes twice, no more than were asked for are added, and where fewer come out, all that
/// are stored are among them.
pub proof fn recent_queries_are_topped_up(recent: Seq<QueryEntry>, stored: Seq<QueryEntry>, limit: usize, e: QueryEntry)
    ensures
        ({
            let r = supplemented(recent, stored, limit);
            &&& recent.is_prefix_of(r)
            &&& r.len() <= limit || r == recent
            &&& forall|i: int| recent.len() <= i < r.len() ==> stored.contains(#[trigger] r[i]) && !has_id(recent, r[i].id)
            &&& r.len() < limit && stored.contains(e) ==> r.contains(e) || has_id(recent, e.id)
        }),
{
    let f = |q: QueryEntry| !has_id(recent, q.id);
    let more = not_among(stored, recent);
    let r = supplemented(recent, stored, limit);
    assert(r.subrange(0, recent.len() as int) =~= recent);
    assert forall|i: int| recent.len() <= i < r.len() implies stored.contains(#[trigger] r[i]) && !has_id(
        recent,
        r[i].id,
    ) by {
        assert(r[i] == more[i - recent.len()]);
        assert(more.contains(more[i - recent.len()]));
        lemma_filtered(stored, f, more[i - recent.len()]);
    }
    lemma_filtered(stored, f, e);
    if r.len() < limit && more.contains(e) {
        let i = choose|i: int| 0 <= i < more.len() && more[i] == e;
        assert(r[recent.len() + i] == e);
    }
}

/// A request for queries behind a given one is answered from the recent ones; a request
/// that asks for anything else but a limit is answered from the stored ones, by all that it
/// asks for; and any other from the recent ones. Addresses are separated by commas.
pub proof fn requests_for_queries_are_planned(p: ListQueriesParams, r: QueryPlan)
    requires
        planned(p, r),
    ensures
        p.after_id is Some ==> r == (QueryPlan::After { after_id: p.after_id->0, limit: shown_limit(p.limit) }),
        p.after_id is None && p.from_ts is None && p.to_ts is None && p.domain is None && p.client_ip is None
            && p.status is None && (p.offset is None || p.offset == Some(0usize)) && p.before_id is None && p.before_ts is None
            ==> r == (QueryPlan::Recent { limit: shown_limit(p.limit) }),
        p.after_id is None && (p.from_ts is Some || p.to_ts is Some || p.domain is Some || p.client_ip is Some
            || p.status is Some || (p.offset is Some && p.offset->0 > 0) || p.before_id is Some || p.before_ts is Some)
            ==> {
            &&& r is Stored
            &&& r->Stored_0.from_ts == p.from_ts
            &&& r->Stored_0.to_ts == p.to_ts
            &&& r->Stored_0.domain == p.domain
            &&& r->Stored_0.status == p.status
            &&& r->Stored_0.limit == Some(shown_limit(p.limit))
            &&& r->Stored_0.offset == p.offset
            &&& r->Stored_0.before_id == p.before_id
            &&& r->Stored_0.before_ts == p.before_ts
            &&& p.client_ip is None ==> r->Stored_0.client_ips@.len() == 0
            &&& p.client_ip is Some ==> texts(r->Stored_0.client_ips@) == listed(split(p.client_ip->0@, ','))
        },
{
    if r is Stored && p.client_ip is None {
        assert(texts(r->Stored_0.client_ips@).len() == r->Stored_0.client_ips@.len());
    }
}

/// The addresses of a request are its parts without white space around them, but for blank
/// ones.
pub proof fn listed_addresses_are_trimmed(parts: Seq<Seq<char>>, x: Seq<char>)
    ensures
        listed(parts).contains(x) <==> x.len() > 0 && exists|i: int| 0 <= i < parts.len() && trim(#[trigger] parts[i]) == x,
    decreases parts.len(),
{
    if parts.len() > 0 {
        let t = parts.drop_last();
        listed_addresses_are_trimmed(t, x);
        assert(parts[parts.len() - 1] == parts.last());
        assert(forall|i: int| 0 <= i < t.len() ==> #[trigger] t[i] == parts[i]);
        let l = listed(t);
        let y = trim(parts.last());
        assert(l.push(y)[l.len() as int] == y);
        if l.contains(x) {
            let i = choose|i: int| 0 <= i < l.len() && l[i] == x;
            assert(l.push(y)[i] == x);
            let j = choose|j: int| 0 <= j < t.len() && trim(#[trigger] t[j]) == x;
            assert(trim(parts[j]) == x);
        }
        if l.push(y).contains(x) && x != y {
            let i = choose|i: int| 0 <= i < l.push(y).len() && l.push(y)[i] == x;
            assert(l[i] == x);
        }
        if exists|i: int| 0 <= i < parts.len() && trim(#[trigger] parts[i]) == x {
            let i = choose|i: int| 0 <= i < parts.len() && trim(#[trigger] parts[i]) == x;
            if i < t.len() {
                assert(trim(t[i]) == x);
            }
        }
    }
}

/// A name can be given to one address or to one device, and must not be blank; it is given
/// without white space around it.
pub proof fn names_are_given_to_one(p: AliasPayload, r: Result<AliasRequest>)
    requires
        alias_outcome(p, r),
    ensures
        r is Ok <==> trim(p.name@).len() > 0 && (p.ip is Some && p.mac is None && client_ip(p.ip->0@) is Some || p.ip is None
            && p.mac is Some && mac_of_text(p.mac->0@) is Some),
        r is Ok ==> r->Ok_0.name@ == trim(p.name@),
        r is Ok && p.ip is Some ==> r->Ok_0.key == AliasKey::Ip(client_ip(p.ip->0@)->0),
        r is Ok && p.mac is Some ==> r->Ok_0.key is Mac && r->Ok_0.key->Mac_0@ == mac_of_text(p.mac->0@)->0,
        r is Err ==> r->Err_0 is Config,
        trim(p.name@).len() == 0 ==> r is Err && config_error(r->Err_0, "name must not be empty"@),
        trim(p.name@).len() > 0 && (p.ip is Some) == (p.mac is Some) ==> r is Err && config_error(
            r->Err_0,
            "provide exactly one of 'ip' or 'mac'"@,
        ),
{
}

/// A device's row tells its queries and its name.
pub proof fn rows_are_about_their_device(v: RegistryView, b: BlocklistView, s: DeviceStat, row: GroupView)
    requires
        row_for(v, b, s, row),
    ensures
        row.total == s.total && row.blocked == s.blocked && row.last_seen == s.last_seen,
        mac_of_text(s.device@) matches Some(m) ==> row.name == (match device_name(v, m) {
            Some(n) => n,
            None => s.device@,
        }),
        mac_of_text(s.device@) is None && client_ip(s.device@) is Some ==> row.name == (match name_of(
            v,
            unmapped(client_ip(s.device@)->0),
        ) {
            Some(n) => n,
            None => s.device@,
        }),
        mac_of_text(s.device@) is None && client_ip(s.device@) is None ==> row.name == s.device@,
{
}

/// Whether an address is among those that bypass the filter.
pub open spec fn among(b: BlocklistView, address: Seq<char>) -> bool {
    client_key(address) is Some && b.client_bypass.contains(client_key(address)->0)
}

proof fn lemma_bypassed(b: BlocklistView, device: Seq<char>, ips: Seq<Seq<char>>, mac: Option<Seq<char>>)
    ensures
        ips.len() > 0 ==> (device_bypasses(b, device, ips, mac) <==> (exists|i: int|
            0 <= i < ips.len() && among(b, #[trigger] ips[i])) || (mac is Some && among(b, mac->0))),
        ips.len() == 0 ==> (device_bypasses(b, device, ips, mac) <==> among(b, device) || (mac is Some && among(
            b,
            mac->0,
        ))),
{
    assert forall|i: int| 0 <= i < ips.len() implies bypasses(b, #[trigger] ips[i], mac) == (among(b, ips[i]) || (mac is Some
        && among(b, mac->0))) by {}
    if ips.len() > 0 && mac is Some && among(b, mac->0) {
        assert(bypasses(b, ips[0], mac));
    }
}

/// A device is shown as not filtered if one of its addresses, or its hardware address, is
/// among those that bypass the filter.
pub proof fn rows_tell_whether_devices_are_filtered(v: RegistryView, b: BlocklistView, s: DeviceStat, row: GroupView)
    requires
        row_for(v, b, s, row),
    ensures
        row.ips.len() > 0 ==> (row.blocking_bypassed <==> (exists|i: int|
            0 <= i < row.ips.len() && among(b, #[trigger] row.ips[i])) || (row.macs.len() > 0 && among(b, row.macs[0]))),
        row.ips.len() == 0 ==> (row.blocking_bypassed <==> among(b, s.device@) || (row.macs.len() > 0 && among(
            b,
            row.macs[0],
        ))),
{
    let mac = if row.macs.len() > 0 {
        Some(row.macs[0])
    } else {
        None
    };
    lemma_bypassed(b, s.device@, row.ips, mac);
    assert(row.blocking_bypassed == device_bypasses(b, s.device@, row.ips, mac)) by {
        lemma_row_bypass(v, b, s, row, mac);
    }
}

proof fn lemma_row_bypass(v: RegistryView, b: BlocklistView, s: DeviceStat, row: GroupView, mac: Option<Seq<char>>)
    requires
        row_for(v, b, s, row),
        mac == (if row.macs.len() > 0 {
            Some(row.macs[0])
        } else {
            None
        }),
    ensures
        row.blocking_bypassed == device_bypasses(b, s.device@, row.ips, mac),
{
}

/// The busiest clients are shown with their names, their queries and their addresses.
pub proof fn busy_clients_are_shown_as_grouped(entries: Seq<TopClientEntry>, groups: Seq<GroupView>, i: int)
    requires
        entries_of(entries, groups),
        0 <= i < groups.len(),
    ensures
        entries.len() == groups.len(),
        entries[i].name@ == groups[i].name && entries[i].total == groups[i].total && texts(entries[i].ips@) == groups[i].ips
            && texts(entries[i].macs@) == groups[i].macs,
{
}

/// For a summary the names are looked for of all addresses in it: of the busiest clients,
/// of the last twenty queries, and of the last twenty refused ones.
pub proof fn names_in_summaries_are_looked_for(counts: Seq<(String, u64)>, recent: Seq<QueryEntry>, i: int)
    ensures
        0 <= i < counts.len() ==> summary_ips(counts, recent).contains(counts[i].0@),
        0 <= i < recent.len() && i < 20 ==> summary_ips(counts, recent).contains(recent[i].client_ip@),
        0 <= i < recent.len() && i < 20 && recent[i].status == QueryStatus::Blocked ==> summary_ips(counts, recent).contains(
            recent[i].client_ip@,
        ),
{
    let a = counted_ips(counts);
    let b = client_ips(first(recent, 20));
    let c = client_ips(first(refused_queries(first(recent, 500)), 20));
    if 0 <= i < counts.len() {
        assert(a[i] == counts[i].0@);
        crate::blocklist::list_laws::lemma_in_sum(a, b, counts[i].0@);
        crate::blocklist::list_laws::lemma_in_sum(a + b, c, counts[i].0@);
    }
    if 0 <= i < recent.len() && i < 20 {
        let x = recent[i].client_ip@;
        assert(b[i] == x);
        crate::blocklist::list_laws::lemma_in_sum(a, b, x);
        crate::blocklist::list_laws::lemma_in_sum(a + b, c, x);
    }
}

}
