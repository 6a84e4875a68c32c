//! Which logged queries are shown, and under which names.
use vstd::prelude::*;
use vstd::slice::*;
use vstd::string::*;

use crate::clients;
use crate::clients::registry::{lookups_change_no_name, name_of, triggered, ClientRegistry, RegistryView};
use crate::clients::{client_ip, unmapped};
use crate::dns::types::QueryEntry;
use crate::ip::IpAddr;
use crate::text;
use crate::text::{char_texts, split, texts, trim};

verus! {

/// Which queries are asked for.
#[derive(Debug)]
pub struct ListQueriesParams {
    pub from_ts: Option<i64>,
    pub to_ts: Option<i64>,
    pub domain: Option<String>,
    /// One address or several, separated by commas.
    pub client_ip: Option<String>,
    pub status: Option<String>,
    pub limit: Option<usize>,
    pub offset: Option<usize>,
    pub before_id: Option<u64>,
    pub before_ts: Option<i64>,
    /// Only recent queries behind this one; nothing else counts then but the limit.
    pub after_id: Option<u64>,
}

impl Default for ListQueriesParams {
    fn default() -> (r: ListQueriesParams)
        ensures
            r.from_ts is None && r.to_ts is None && r.domain is None && r.client_ip is None,
            r.status is None && r.limit is None && r.offset is None,
            r.before_id is None && r.before_ts is None && r.after_id is None,
    {
        ListQueriesParams {
            from_ts: None,
            to_ts: None,
            domain: None,
            client_ip: None,
            status: None,
            limit: None,
            offset: None,
            before_id: None,
            before_ts: None,
            after_id: None,
        }
    }
}

/// What is asked of the stored queries.
#[derive(Debug)]
pub struct QueryFilter {
    pub from_ts: Option<i64>,
    pub to_ts: Option<i64>,
    pub domain: Option<String>,
    /// Queries of any of these; of every client if there is none.
    pub client_ips: Vec<String>,
    pub status: Option<String>,
    pub limit: Option<usize>,
    pub offset: Option<usize>,
    pub before_id: Option<u64>,
    pub before_ts: Option<i64>,
}

/// Where the queries come from.
#[derive(Debug)]
pub enum QueryPlan {
    /// The recent queries behind `after_id`.
    After { after_id: u64, limit: usize },
    /// The stored queries.
    Stored(QueryFilter),
    /// The recent queries, and stored ones where these are too few.
    Recent { limit: usize },
}

/// How many queries are shown: 100 where nothing is said, at most 1000.
pub open spec fn shown_limit(limit: Option<usize>) -> usize {
    match limit {
        None => 100,
        Some(n) => if n < 1000 {
            n
        } else {
            1000
        },
    }
}

/// Something narrows the queries down.
pub open spec fn narrows(p: ListQueriesParams) -> bool {
    p.from_ts is Some || p.to_ts is Some || p.domain is Some || p.client_ip is Some || p.status is Some || (match p.offset {
        Some(n) => n > 0,
        None => false,
    }) || p.before_id is Some || p.before_ts is Some
}

/// The addresses in a list: the parts between commas, trimmed, without empty ones.
pub open spec fn listed_ips(s: Option<String>) -> Seq<Seq<char>> {
    match s {
        Some(t) => listed(split(t@, ',')),
        None => seq![],
    }
}

/// Parts, trimmed, without empty ones.
pub open spec fn listed(parts: Seq<Seq<char>>) -> Seq<Seq<char>>
    decreases parts.len(),
{
    if parts.len() == 0 {
        seq![]
    } else if trim(parts.last()).len() == 0 {
        listed(parts.drop_last())
    } else {
        listed(parts.drop_last()).push(trim(parts.last()))
    }
}

/// The source that the parameters ask for.
pub open spec fn planned(p: ListQueriesParams, r: QueryPlan) -> bool {
    match p.after_id {
        Some(id) => r == (QueryPlan::After { after_id: id, limit: shown_limit(p.limit) }),
        None => if narrows(p) {
            match r {
                QueryPlan::Stored(f) => {
                    &&& f.from_ts == p.from_ts
                    &&& f.to_ts == p.to_ts
                    &&& f.domain == p.domain
                    &&& texts(f.client_ips@) == listed_ips(p.client_ip)
                    &&& f.status == p.status
                    &&& f.limit == Some(shown_limit(p.limit))
                    &&& f.offset == p.offset
                    &&& f.before_id == p.before_id
                    &&& f.before_ts == p.before_ts
                },
                _ => false,
            }
        } else {
            r == (QueryPlan::Recent { limit: shown_limit(p.limit) })
        },
    }
}

fn limit_of(limit: Option<usize>) -> (r: usize)
    ensures
        r == shown_limit(limit),
{
    match limit {
        None => 100,
        Some(n) => if n < 1000 {
            n
        } else {
            1000
        },
    }
}

fn list_ips(s: &Option<String>) -> (r: Vec<String>)
    ensures
        texts(r@) == listed_ips(*s),
{
    let mut out: Vec<String> = Vec::new();
    if let Some(t) = s {
        let cs = text::chars_of(t.as_str());
        let parts = text::split_on(cs.as_slice(), ',');
        let ghost p = char_texts(parts@);
        let mut i: usize = 0;
        assert(texts(out@) =~= listed(p.take(0)));
        while i < parts.len()
            invariant
                i <= parts@.len(),
                p == char_texts(parts@),
                texts(out@) == listed(p.take(i as int)),
            decreases parts@.len() - i,
        {
            proof {
                assert(p.take(i + 1).drop_last() =~= p.take(i as int));
                assert(p.take(i + 1).last() == parts@[i as int]@);
            }
            let one = text::trimmed(parts[i].as_slice());
            if one.len() > 0 {
                let s1 = text::string_of(one);
                proof {
                    text::lemma_texts_push(out@, s1);
                }
                out.push(s1);
            }
            i = i + 1;
        }
        assert(p.take(p.len() as int) =~= p);
    } else {
        assert(texts(out@) =~= seq![]);
    }
    out
}

/// Where the queries come from that the parameters ask for.
pub fn plan_queries(params: ListQueriesParams) -> (r: QueryPlan)
    ensures
        planned(params, r),
{
    let limit = limit_of(params.limit);
    if let Some(after_id) = params.after_id {
        return QueryPlan::After { after_id, limit };
    }
    let has_filters = params.from_ts.is_some() || params.to_ts.is_some() || params.domain.is_some()
        || params.client_ip.is_some() || params.status.is_some() || (match params.offset {
        Some(n) => n > 0,
        None => false,
    }) || params.before_id.is_some() || params.before_ts.is_some();
    if !has_filters {
        return QueryPlan::Recent { limit };
    }
    let client_ips = list_ips(&params.client_ip);
    QueryPlan::Stored(
        QueryFilter {
            from_ts: params.from_ts,
            to_ts: params.to_ts,
            domain: params.domain,
            client_ips,
            status: params.status,
            limit: Some(limit),
            offset: params.offset,
            before_id: params.before_id,
            before_ts: params.before_ts,
        },
    )
}

/// The query is among the entries, by its number.
pub open spec fn has_id(entries: Seq<QueryEntry>, id: u64) -> bool {
    exists|i: int| 0 <= i < entries.len() && (#[trigger] entries[i]).id == id
}

/// Entries without those that are among others, by their numbers.
pub open spec fn not_among(entries: Seq<QueryEntry>, others: Seq<QueryEntry>) -> Seq<QueryEntry> {
    entries.filter(|e: QueryEntry| !has_id(others, e.id))
}

/// The recent queries and, where these are fewer than the limit, the first stored
/// ones that are not among them, up to the limit.
pub open spec fn supplemented(recent: Seq<QueryEntry>, stored: Seq<QueryEntry>, limit: usize) -> Seq<QueryEntry> {
    let more = not_among(stored, recent);
    if recent.len() >= limit {
        recent
    } else if recent.len() + more.len() <= limit {
        recent + more
    } else {
        recent + more.take(limit - recent.len())
    }
}

fn is_among(entries: &Vec<QueryEntry>, n: usize, id: u64) -> (r: bool)
    requires
        n <= entries@.len(),
    ensures
        r == has_id(entries@.take(n as int), id),
{
    let mut i: usize = 0;
    while i < n
        invariant
            i <= n,
            n <= entries@.len(),
            forall|j: int| 0 <= j < i ==> (#[trigger] entries@.take(n as int)[j]).id != id,
        decreases n - i,
    {
        if entries[i].id == id {
            assert(entries@.take(n as int)[i as int].id == id);
            return true;
        }
        i = i + 1;
    }
    false
}

/// Adds stored queries to the recent ones where these are too few.
pub fn supplement(recent: Vec<QueryEntry>, stored: &Vec<QueryEntry>, limit: usize) -> (r: Vec<QueryEntry>)
    ensures
        r@ == supplemented(recent@, stored@, limit),
{
    let n = recent.len();
    let ghost rv = recent@;
    let mut out = recent;
    if n >= limit {
        return out;
    }
    let ghost keep = |e: QueryEntry| !has_id(rv, e.id);
    let mut i: usize = 0;
    assert(stored@.take(0).filter(keep) =~= Seq::<QueryEntry>::empty()) by {
        reveal(Seq::filter);
    }
    assert(out@ =~= rv + stored@.take(0).filter(keep));
    while i < stored.len() && out.len() < limit
        invariant
            i <= stored@.len(),
            n == rv.len(),
            n <= out@.len() <= limit,
            keep == (|e: QueryEntry| !has_id(rv, e.id)),
            out@ == rv + stored@.take(i as int).filter(keep),
        decreases stored@.len() - i,
    {
        proof {
            assert(stored@.take(i + 1) =~= stored@.take(i as int).push(stored@[i as int]));
            text::lemma_filter_push(stored@.take(i as int), stored@[i as int], keep);
            assert(out@.take(n as int) =~= rv);
        }
        if !is_among(&out, n, stored[i].id) {
            let e = stored[i].clone();
            out.push(e);
            assert(out@ =~= rv + stored@.take(i + 1).filter(keep));
        }
        i = i + 1;
    }
    proof {
        let f = stored@.take(i as int).filter(keep);
        assert(stored@.take(i as int) + stored@.skip(i as int) =~= stored@);
        Seq::filter_distributes_over_add(stored@.take(i as int), stored@.skip(i as int), keep);
        let more = not_among(stored@, rv);
        assert(more == f + stored@.skip(i as int).filter(keep));
        if i == stored@.len() {
            assert(stored@.take(i as int) =~= stored@);
        } else {
            assert(f.len() == limit - n);
            assert(more.take(limit - n) =~= f);
            if rv.len() + more.len() <= limit {
                assert(more =~= f);
            }
        }
    }
    out
}

/// A query and the name of the client that sent it, where there is one.
#[derive(Debug)]
pub struct EnrichedEntry {
    pub entry: QueryEntry,
    pub client_name: Option<String>,
}

/// The addresses of the clients that sent queries.
pub open spec fn client_ips(entries: Seq<QueryEntry>) -> Seq<Seq<char>> {
    entries.map_values(|e: QueryEntry| e.client_ip@)
}

/// The name of the client with an address, where it is one and has one.
pub open spec fn client_name(v: RegistryView, address: Seq<char>) -> Option<Seq<char>> {
    match client_ip(address) {
        Some(a) => name_of(v, unmapped(a)),
        None => None,
    }
}

/// Adds the names of clients to queries. Also returns the addresses whose names are
/// to be looked for now.
pub fn enrich(registry: &mut ClientRegistry, entries: &Vec<QueryEntry>, now: u64) -> (r: (Vec<EnrichedEntry>, Vec<IpAddr>))
    requires
        old(registry).wf(),
    ensures
        final(registry).wf(),
        (final(registry)@, r.1@) == triggered(old(registry)@, client_ips(entries@), now),
        r.0@.len() == entries@.len(),
        forall|i: int|
            0 <= i < r.0@.len() ==> (#[trigger] r.0@[i]).entry == entries@[i] && (match r.0@[i].client_name {
                Some(n) => Some(n@),
                None => None,
            }) == client_name(old(registry)@, entries@[i].client_ip@),
{
    let ghost v = registry@;
    let ghost ips = client_ips(entries@);
    let mut out: Vec<EnrichedEntry> = Vec::new();
    let mut lookups: Vec<IpAddr> = Vec::new();
    let mut i: usize = 0;
    while i < entries.len()
        invariant
            i <= entries@.len(),
            ips == client_ips(entries@),
            registry.wf(),
            (registry@, lookups@) == triggered(v, ips.take(i as int), now),
            out@.len() == i,
            forall|j: int|
                0 <= j < i ==> (#[trigger] out@[j]).entry == entries@[j] && (match out@[j].client_name {
                    Some(n) => Some(n@),
                    None => None,
                }) == client_name(v, entries@[j].client_ip@),
        decreases entries@.len() - i,
    {
        proof {
            assert(ips.take(i + 1).drop_last() =~= ips.take(i as int));
            assert(ips.take(i + 1).last() == entries@[i as int].client_ip@);
            lookups_change_no_name(v, ips.take(i + 1), now);
        }
        let client_name = match clients::parse_ip(entries[i].client_ip.as_str()) {
            Some(a) => {
                if registry.trigger_resolve(a, now) {
                    lookups.push(clients::unmap_v4(a));
                }
                registry.get_name(a)
            },
            None => None,
        };
        let entry = entries[i].clone();
        out.push(EnrichedEntry { entry, client_name });
        i = i + 1;
    }
    assert(ips.take(ips.len() as int) =~= ips);
    (out, lookups)
}

}
