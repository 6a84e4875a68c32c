//! The busiest clients, and the time that statistics are taken over.
use vstd::prelude::*;
use vstd::slice::*;
use vstd::string::*;

use crate::api::clients::{
    busiest, counted, group_rows, group_views, grouped, rank_groups, time_span, window, ClientGroup, GroupView,
};
use crate::api::queries::{client_ips, client_name, enrich, EnrichedEntry};
use crate::clients;
use crate::clients::registry::{
    lookups_add_up, lookups_change_no_name, mac_behind, triggered, ClientRegistry, RegistryView,
};
use crate::clients::{client_ip, mac_text, unmapped};
use crate::dns::types::{QueryEntry, QueryStatus};
use crate::ip::IpAddr;
use crate::text;
use crate::text::texts;

verus! {

/// What statistics are taken over, and how much of them is shown.
#[derive(Debug, Clone, Copy)]
pub struct TopStatsParams {
    pub limit: Option<usize>,
    /// The hours to look back: 24 where nothing is said, at most 168.
    pub hours: Option<u64>,
    /// All retained history.
    pub all_time: Option<bool>,
}

impl Default for TopStatsParams {
    fn default() -> (r: TopStatsParams)
        ensures
            r.limit is None,
            r.hours is None,
            r.all_time is None,
    {
        TopStatsParams { limit: None, hours: None, all_time: None }
    }
}

/// How many are shown: 20 where nothing is said, at most 200.
pub open spec fn top_limit(limit: Option<usize>) -> usize {
    match limit {
        None => 20,
        Some(n) => if n < 200 {
            n
        } else {
            200
        },
    }
}

/// The time up to which and from which statistics are taken, in seconds since 1970,
/// and how many are shown.
pub fn time_window(params: &TopStatsParams, now: i64) -> (r: (i64, i64, usize))
    requires
        now >= 0,
    ensures
        (r.0, r.1) == window(params.all_time == Some(true) || params.hours == Some(0u64), params.hours, now),
        r.2 == top_limit(params.limit),
{
    let limit: usize = match params.limit {
        None => 20,
        Some(n) => if n < 200 {
            n
        } else {
            200
        },
    };
    let all = (match params.all_time {
        Some(b) => b,
        None => false,
    }) || (match params.hours {
        Some(h) => h == 0,
        None => false,
    });
    let (to, from) = time_span(all, params.hours, now);
    (to, from, limit)
}

/// A client and how many queries it sent.
#[derive(Debug)]
pub struct TopClientEntry {
    pub name: String,
    pub total: u64,
    pub ips: Vec<String>,
    pub macs: Vec<String>,
}

/// The row of an address and how many queries came from it: under the name of the
/// client, or else the address.
pub open spec fn top_row(v: RegistryView, address: Seq<char>, total: u64) -> GroupView {
    GroupView {
        name: match client_name(v, address) {
            Some(n) => n,
            None => address,
        },
        ips: seq![address],
        macs: match client_ip(address) {
            Some(a) => match mac_behind(v, unmapped(a)) {
                Some(m) => seq![mac_text(m)],
                None => seq![],
            },
            None => seq![],
        },
        total,
        blocked: 0,
        last_seen: 0,
        is_alias: false,
        blocking_bypassed: false,
    }
}

/// The rows of addresses.
pub open spec fn top_rows(v: RegistryView, counts: Seq<(String, u64)>) -> Seq<GroupView> {
    counts.map_values(|c: (String, u64)| top_row(v, c.0@, c.1))
}

/// The addresses in a list of counts.
pub open spec fn counted_ips(counts: Seq<(String, u64)>) -> Seq<Seq<char>> {
    counts.map_values(|c: (String, u64)| c.0@)
}

/// The sum of counts.
pub open spec fn sum_of(counts: Seq<(String, u64)>) -> nat
    decreases counts.len(),
{
    if counts.len() == 0 {
        0
    } else {
        sum_of(counts.drop_last()) + counts.last().1 as nat
    }
}

proof fn lemma_rows_count(v: RegistryView, counts: Seq<(String, u64)>)
    ensures
        counted(top_rows(v, counts)) == (sum_of(counts), 0nat),
    decreases counts.len(),
{
    if counts.len() > 0 {
        lemma_rows_count(v, counts.drop_last());
        assert(top_rows(v, counts).drop_last() =~= top_rows(v, counts.drop_last()));
    }
}

/// The entries are these clients.
pub open spec fn entries_of(entries: Seq<TopClientEntry>, groups: Seq<GroupView>) -> bool {
    &&& entries.len() == groups.len()
    &&& forall|i: int|
        0 <= i < entries.len() ==> (#[trigger] entries[i]).name@ == groups[i].name && entries[i].total
            == groups[i].total && texts(entries[i].ips@) == groups[i].ips && texts(entries[i].macs@) == groups[i].macs
}

fn make_row(registry: &mut ClientRegistry, address: &String, total: u64, now: u64) -> (r: (ClientGroup, Option<IpAddr>))
    requires
        old(registry).wf(),
    ensures
        final(registry).wf(),
        r.0@ == top_row(old(registry)@, address@, total),
        (final(registry)@, match r.1 {
            Some(a) => seq![a],
            None => seq![],
        }) == triggered(old(registry)@, seq![address@], now),
{
    let ghost v = registry@;
    let mut ips: Vec<String> = Vec::new();
    let mut macs: Vec<String> = Vec::new();
    let mut name = address.clone();
    let mut lookup: Option<IpAddr> = None;
    ips.push(address.clone());
    proof {
        let t = seq![address@];
        assert(t.drop_last() =~= seq![]);
        assert(texts(ips@) =~= t);
        assert(texts(macs@) =~= seq![]);
        reveal_with_fuel(triggered, 2);
        lookups_change_no_name(v, t, now);
        assert(Seq::<IpAddr>::empty().push(unmapped(client_ip(address@)->0)) =~= seq![unmapped(
            client_ip(address@)->0,
        )]);
    }
    if let Some(p) = clients::parse_ip(address.as_str()) {
        let a = clients::unmap_v4(p);
        if registry.trigger_resolve(a, now) {
            lookup = Some(a);
        }
        if let Some(n) = registry.get_name(a) {
            name = n;
        }
        if let Some(m) = registry.get_mac(a) {
            proof {
                assert(texts(macs@.push(m)) =~= seq![m@]);
            }
            macs.push(m);
        }
    }
    (
        ClientGroup {
            name,
            ips,
            macs,
            total,
            blocked: 0,
            last_seen: 0,
            is_alias: false,
            blocking_bypassed: false,
        },
        lookup,
    )
}

/// The clients behind counted addresses: by name, the busiest first, at most
/// `limit`. Also returns the addresses whose names are to be looked for now.
pub fn top_clients(
    registry: &mut ClientRegistry,
    counts: &Vec<(String, u64)>,
    limit: usize,
    now: u64,
) -> (r: (Vec<TopClientEntry>, Vec<IpAddr>))
    requires
        old(registry).wf(),
        sum_of(counts@) <= u64::MAX,
    ensures
        final(registry).wf(),
        (final(registry)@, r.1@) == triggered(old(registry)@, counted_ips(counts@), now),
        entries_of(r.0@, busiest(grouped(top_rows(old(registry)@, counts@), false), limit)),
{
    let ghost v = registry@;
    let ghost ips = counted_ips(counts@);
    let ghost rv = top_rows(v, counts@);
    let mut rows: Vec<ClientGroup> = Vec::new();
    let mut lookups: Vec<IpAddr> = Vec::new();
    let mut i: usize = 0;
    assert(group_views(rows@) =~= rv.take(0));
    while i < counts.len()
        invariant
            i <= counts@.len(),
            ips == counted_ips(counts@),
            rv == top_rows(v, counts@),
            registry.wf(),
            (registry@, lookups@) == triggered(v, ips.take(i as int), now),
            group_views(rows@) == rv.take(i as int),
        decreases counts@.len() - i,
    {
        let ghost w = registry@;
        let ghost before = lookups@;
        proof {
            assert(ips.take(i + 1).drop_last() =~= ips.take(i as int));
            assert(ips.take(i + 1).last() == counts@[i as int].0@);
            lookups_change_no_name(v, ips.take(i as int), now);
            lemma_same_row(v, w, counts@[i as int].0@, counts@[i as int].1);
            lemma_triggered_one(w, counts@[i as int].0@, now);
            assert(rv.take(i + 1) =~= rv.take(i as int).push(rv[i as int]));
        }
        let (row, lookup) = make_row(registry, &counts[i].0, counts[i].1, now);
        let ghost rows0 = group_views(rows@);
        rows.push(row);
        assert(group_views(rows@) =~= rows0.push(row@));
        if let Some(a) = lookup {
            lookups.push(a);
            assert(seq![a].len() == 1 && seq![a][0] == a);
        }
        assert((registry@, lookups@) == triggered(v, ips.take(i + 1), now));
        i = i + 1;
    }
    proof {
        assert(ips.take(ips.len() as int) =~= ips);
        assert(rv.take(rv.len() as int) =~= rv);
        lemma_rows_count(v, counts@);
    }
    let groups = group_rows(&rows, false);
    let ranking = rank_groups(groups, limit);
    let ghost gs = group_views(ranking@);
    let mut out: Vec<TopClientEntry> = Vec::new();
    let n = ranking.len();
    let mut rest = ranking;
    let mut k: usize = 0;
    while k < n
        invariant
            k <= n,
            n == gs.len(),
            rest@.len() == n - k,
            forall|j: int| 0 <= j < n - k ==> (#[trigger] rest@[j])@ == gs[j],
            out@.len() == k,
            forall|j: int|
                0 <= j < k ==> (#[trigger] out@[j]).name@ == gs[n - 1 - j].name && out@[j].total == gs[n - 1 - j].total
                    && texts(out@[j].ips@) == gs[n - 1 - j].ips && texts(out@[j].macs@) == gs[n - 1 - j].macs,
        decreases n - k,
    {
        if let Some(g) = rest.pop() {
            assert(g@ == gs[n - k - 1]);
            out.push(TopClientEntry { name: g.name, total: g.total, ips: g.ips, macs: g.macs });
        }
        k = k + 1;
    }
    let mut sorted: Vec<TopClientEntry> = Vec::new();
    let mut k: usize = 0;
    while k < n
        invariant
            k <= n,
            n == gs.len(),
            out@.len() == n - k,
            forall|j: int|
                0 <= j < n - k ==> (#[trigger] out@[j]).name@ == gs[n - 1 - j].name && out@[j].total == gs[n - 1
                    - j].total && texts(out@[j].ips@) == gs[n - 1 - j].ips && texts(out@[j].macs@) == gs[n - 1 - j].macs,
            sorted@.len() == k,
            forall|j: int|
                0 <= j < k ==> (#[trigger] sorted@[j]).name@ == gs[j].name && sorted@[j].total == gs[j].total && texts(
                    sorted@[j].ips@,
                ) == gs[j].ips && texts(sorted@[j].macs@) == gs[j].macs,
        decreases n - k,
    {
        if let Some(e) = out.pop() {
            sorted.push(e);
        }
        k = k + 1;
    }
    (sorted, lookups)
}

proof fn lemma_same_row(v: RegistryView, w: RegistryView, address: Seq<char>, total: u64)
    requires
        w == (RegistryView { in_flight: w.in_flight, ..v }),
    ensures
        top_row(w, address, total) == top_row(v, address, total),
{
}

proof fn lemma_triggered_one(w: RegistryView, address: Seq<char>, now: u64)
    ensures
        triggered(w, seq![address], now).0 == (match client_ip(address) {
            Some(a) => crate::clients::registry::triggered_one(w, a, now).0,
            None => w,
        }),
        triggered(w, seq![address], now).1 =~= (match client_ip(address) {
            Some(a) => if crate::clients::registry::triggered_one(w, a, now).1 {
                seq![unmapped(a)]
            } else {
                seq![]
            },
            None => seq![],
        }),
{
    assert(seq![address].drop_last() =~= seq![]);
    assert(seq![address].last() == address);
    reveal_with_fuel(triggered, 2);
}

/// How many clients a summary names.
pub const SUMMARY_CLIENTS: usize = 10;

/// How many queries a summary shows, and how many refused ones.
pub const SUMMARY_QUERIES: usize = 20;

/// How many queries are looked through for refused ones.
pub const SUMMARY_SCAN: usize = 500;

/// The first items of a list.
pub open spec fn first<A>(items: Seq<A>, n: nat) -> Seq<A> {
    if items.len() <= n {
        items
    } else {
        items.take(n as int)
    }
}

/// The refused queries of a list.
pub open spec fn refused_queries(entries: Seq<QueryEntry>) -> Seq<QueryEntry> {
    entries.filter(|e: QueryEntry| e.status == QueryStatus::Blocked)
}

fn first_entries(entries: &Vec<QueryEntry>, n: usize) -> (r: Vec<QueryEntry>)
    ensures
        r@ == first(entries@, n as nat),
{
    let mut out: Vec<QueryEntry> = Vec::new();
    let mut i: usize = 0;
    while i < entries.len() && i < n
        invariant
            i <= entries@.len(),
            i <= n,
            out@ == entries@.take(i as int),
        decreases entries@.len() - i,
    {
        let e = entries[i].clone();
        out.push(e);
        assert(entries@.take(i + 1) =~= entries@.take(i as int).push(e));
        i = i + 1;
    }
    assert(entries@.take(entries@.len() as int) =~= entries@);
    out
}

fn first_refused(entries: &Vec<QueryEntry>) -> (r: Vec<QueryEntry>)
    ensures
        r@ == first(refused_queries(first(entries@, SUMMARY_SCAN as nat)), SUMMARY_QUERIES as nat),
{
    let ghost f = |e: QueryEntry| e.status == QueryStatus::Blocked;
    let scanned = first_entries(entries, SUMMARY_SCAN);
    let ghost s = scanned@;
    let mut out: Vec<QueryEntry> = Vec::new();
    let mut i: usize = 0;
    assert(s.take(0).filter(f) =~= Seq::<QueryEntry>::empty()) by {
        reveal(Seq::filter);
    }
    while i < scanned.len() && out.len() < SUMMARY_QUERIES
        invariant
            i <= s.len(),
            s == scanned@,
            f == (|e: QueryEntry| e.status == QueryStatus::Blocked),
            out@ == s.take(i as int).filter(f),
            out@.len() <= SUMMARY_QUERIES,
        decreases s.len() - i,
    {
        proof {
            assert(s.take(i + 1) =~= s.take(i as int).push(s[i as int]));
            text::lemma_filter_push(s.take(i as int), s[i as int], f);
        }
        if scanned[i].status == QueryStatus::Blocked {
            let e = scanned[i].clone();
            out.push(e);
        }
        i = i + 1;
    }
    proof {
        let all = refused_queries(s);
        let done = s.take(i as int);
        let rest = s.skip(i as int);
        assert(done + rest =~= s);
        Seq::filter_distributes_over_add(done, rest, f);
        assert(all == out@ + rest.filter(f));
        if i == s.len() {
            assert(done =~= s);
        } else {
            assert(all.take(SUMMARY_QUERIES as int) =~= out@);
            if all.len() <= SUMMARY_QUERIES {
                assert(all =~= out@);
            }
        }
    }
    out
}

/// The queries with the names of the clients that sent them.
pub open spec fn named_queries(v: RegistryView, shown: Seq<EnrichedEntry>, entries: Seq<QueryEntry>) -> bool {
    &&& shown.len() == entries.len()
    &&& forall|i: int|
        0 <= i < shown.len() ==> (#[trigger] shown[i]).entry == entries[i] && (match shown[i].client_name {
            Some(n) => Some(n@),
            None => None,
        }) == client_name(v, entries[i].client_ip@)
}

/// What a summary says of clients and queries.
#[derive(Debug)]
pub struct Summary {
    pub top_clients: Vec<TopClientEntry>,
    pub recent_domains: Vec<EnrichedEntry>,
    pub recent_blocked: Vec<EnrichedEntry>,
}

/// The addresses whose names a summary asks for.
pub open spec fn summary_ips(counts: Seq<(String, u64)>, recent: Seq<QueryEntry>) -> Seq<Seq<char>> {
    counted_ips(counts) + client_ips(first(recent, SUMMARY_QUERIES as nat)) + client_ips(
        first(refused_queries(first(recent, SUMMARY_SCAN as nat)), SUMMARY_QUERIES as nat),
    )
}

/// The busiest clients, the latest queries and the latest refused ones, each with the
/// names of clients. The queries are given with the latest first. Also returns the
/// addresses whose names are to be looked for now.
pub fn get_summary(
    registry: &mut ClientRegistry,
    counts: &Vec<(String, u64)>,
    recent: &Vec<QueryEntry>,
    now: u64,
) -> (r: (Summary, Vec<IpAddr>))
    requires
        old(registry).wf(),
        sum_of(counts@) <= u64::MAX,
    ensures
        final(registry).wf(),
        (final(registry)@, r.1@) == triggered(old(registry)@, summary_ips(counts@, recent@), now),
        entries_of(
            r.0.top_clients@,
            busiest(grouped(top_rows(old(registry)@, counts@), false), SUMMARY_CLIENTS),
        ),
        named_queries(old(registry)@, r.0.recent_domains@, first(recent@, SUMMARY_QUERIES as nat)),
        named_queries(
            old(registry)@,
            r.0.recent_blocked@,
            first(refused_queries(first(recent@, SUMMARY_SCAN as nat)), SUMMARY_QUERIES as nat),
        ),
{
    let ghost v = registry@;
    let ghost a = counted_ips(counts@);
    let shown = first_entries(recent, SUMMARY_QUERIES);
    let refused = first_refused(recent);
    let ghost b = client_ips(shown@);
    let ghost c = client_ips(refused@);
    proof {
        lookups_change_no_name(v, a, now);
        lookups_change_no_name(v, a + b, now);
        lookups_add_up(v, a, b, now);
        lookups_add_up(v, a + b, c, now);
    }
    let (top_clients, first_lookups) = top_clients(registry, counts, SUMMARY_CLIENTS, now);
    let (recent_domains, more) = enrich(registry, &shown, now);
    let (recent_blocked, last) = enrich(registry, &refused, now);
    let mut lookups = first_lookups;
    let mut more = more;
    let mut last = last;
    lookups.append(&mut more);
    lookups.append(&mut last);
    assert(lookups@ =~= triggered(v, a + b + c, now).1);
    (Summary { top_clients, recent_domains, recent_blocked }, lookups)
}

}
