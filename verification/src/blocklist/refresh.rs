//! Refreshing lists.
use vstd::hash_map::StringHashMap;
use vstd::prelude::*;
use vstd::slice::*;
use vstd::string::*;

use crate::blocklist::fst_map;
use crate::blocklist::fst_map::{set_file, FstMap};
use crate::blocklist::loader;
use crate::blocklist::loader::domain_keys;
use crate::blocklist::parser;
use crate::blocklist::parser::AdblockStats;
use crate::error::{FeriteError, Result};
use crate::lru_cache::NANOS_PER_SEC;
use crate::text;
use crate::text::{alphanumeric, join, lines, texts};

verus! {

/// A character that may stand in a file name.
pub open spec fn file_char(c: char) -> char {
    if alphanumeric(c) || c == '-' || c == '_' {
        c
    } else {
        '_'
    }
}

/// The file name for a list.
pub open spec fn sanitized(name: Seq<char>) -> Seq<char> {
    name.map_values(|c: char| file_char(c))
}

/// Turns a list's name into a safe file name.
pub fn sanitize_name(name: &str) -> (r: String)
    ensures
        r@ == sanitized(name@),
{
    let cs = text::chars_of(name);
    let mut out = String::new();
    let mut i: usize = 0;
    while i < cs.len()
        invariant
            i <= cs@.len(),
            out@ == sanitized(cs@.take(i as int)),
        decreases cs@.len() - i,
    {
        let c = cs[i];
        if c.is_alphanumeric() || c == '-' || c == '_' {
            out.push(c);
        } else {
            out.push('_');
        }
        i = i + 1;
        assert(cs@.take(i as int) == cs@.take(i - 1).push(cs@[i - 1]));
    }
    assert(cs@.take(cs@.len() as int) == cs@);
    out
}

/// A file name that was made of a list's name stays in its directory: it holds no
/// separator and no dot.
pub proof fn file_names_stay_in_place(name: Seq<char>)
    ensures
        sanitized(name).len() == name.len(),
        !sanitized(name).contains('/'),
        !sanitized(name).contains('\\'),
        !sanitized(name).contains('.'),
{
    let s = sanitized(name);
    assert forall|i: int| 0 <= i < s.len() implies #[trigger] s[i] != '/' && s[i] != '\\' && s[i] != '.' by {
        assert(s[i] == file_char(name[i]));
    }
}

/// Whether a list blocks or allows.
#[derive(Debug, Clone, Copy, PartialEq, Eq, Structural)]
pub enum ListPolarity {
    Block,
    Allow,
}

/// Nanoseconds for which a list's cached files count as fresh: twelve hours.
pub const LIST_CACHE_TTL: u64 = 43_200_000_000_000;

/// Whether a cached file of this age, in nanoseconds, is still fresh.
pub fn is_fresh(age: u64) -> (r: bool)
    ensures
        r == (age <= 12 * 3600 * NANOS_PER_SEC),
{
    age <= LIST_CACHE_TTL
}

/// The lines of a cached domain file that are not empty.
pub open spec fn cached_domains(content: Seq<char>) -> Seq<Seq<char>> {
    lines(content).filter(|l: Seq<char>| l.len() > 0)
}

/// Reads a cached domain file.
pub fn parse_text_cache(content: &str) -> (r: Vec<String>)
    ensures
        texts(r@) == cached_domains(content@),
{
    let cs = text::chars_of(content);
    let s = cs.as_slice();
    let ghost keep = |l: Seq<char>| l.len() > 0;
    let ghost mut done: Seq<Seq<char>> = seq![];
    let mut out: Vec<String> = Vec::new();
    let mut pos: usize = 0;
    assert(s@.skip(0) =~= s@);
    assert(done + lines(s@) =~= lines(s@));
    assert(texts(out@) =~= done.filter(keep)) by {
        reveal(Seq::filter);
    }
    while pos < s.len()
        invariant
            pos <= s@.len(),
            s@ == content@,
            keep == (|l: Seq<char>| l.len() > 0),
            lines(s@) == done + lines(s@.skip(pos as int)),
            texts(out@) == done.filter(keep),
        decreases s@.len() - pos,
    {
        let (end, next) = text::next_line(s, pos);
        let line = slice_subrange(s, pos, end);
        proof {
            assert(done.push(line@) + lines(s@.skip(next as int)) =~= done + (seq![line@] + lines(
                s@.skip(next as int),
            )));
            text::lemma_filter_push(done, line@, keep);
            done = done.push(line@);
        }
        if line.len() > 0 {
            let l = text::string_of(line);
            proof {
                text::lemma_texts_push(out@, l);
            }
            out.push(l);
        }
        pos = next;
    }
    assert(s@.skip(s@.len() as int) =~= Seq::<char>::empty());
    assert(done + lines(Seq::<char>::empty()) =~= done);
    out
}

/// The content of the cached domain file for these domains: one per line.
pub fn format_text_cache(domains: &Vec<String>) -> (r: String)
    ensures
        r@ == join(texts(domains@), seq!['\n']),
{
    let ghost tv = texts(domains@);
    let mut out = String::new();
    let mut i: usize = 0;
    while i < domains.len()
        invariant
            i <= domains@.len(),
            tv == texts(domains@),
            out@ == join(tv.take(i as int), seq!['\n']),
        decreases domains@.len() - i,
    {
        let ghost before = out@;
        if i > 0 {
            out.push('\n');
        }
        out.append(domains[i].as_str());
        proof {
            let cur = tv.take(i + 1);
            assert(cur.drop_last() =~= tv.take(i as int));
            assert(cur.last() == domains@[i as int]@);
            if i > 0 {
                assert(out@ =~= before + seq!['\n'] + domains@[i as int]@);
            } else {
                assert(out@ =~= domains@[0]@);
            }
        }
        i = i + 1;
    }
    assert(tv.take(tv.len() as int) =~= tv);
    out
}

/// A domain that a line can hold: not empty, without a line break.
pub open spec fn one_line(d: Seq<char>) -> bool {
    d.len() > 0 && !d.contains('\n') && d.last() != '\r'
}

/// Domains written to a cached domain file are read back as they were.
pub proof fn text_cache_round_trip(ds: Seq<Seq<char>>)
    requires
        forall|i: int| 0 <= i < ds.len() ==> one_line(#[trigger] ds[i]),
    ensures
        cached_domains(join(ds, seq!['\n'])) == ds,
{
    lemma_lines_of_join(ds, Seq::empty(), Seq::empty());
    let f = |l: Seq<char>| l.len() > 0;
    assert(join(ds, seq!['\n']) + Seq::<char>::empty() =~= join(ds, seq!['\n']));
    if ds.len() == 0 {
        assert(join(ds, seq!['\n']) =~= Seq::<char>::empty());
        assert(lines(Seq::<char>::empty()) =~= Seq::<Seq<char>>::empty());
    }
    lemma_keep_all(ds, f);
}

proof fn lemma_keep_all(ds: Seq<Seq<char>>, f: spec_fn(Seq<char>) -> bool)
    requires
        forall|i: int| 0 <= i < ds.len() ==> f(#[trigger] ds[i]),
    ensures
        ds.filter(f) == ds,
    decreases ds.len(),
{
    if ds.len() == 0 {
        reveal(Seq::filter);
        assert(ds.filter(f) =~= ds);
    } else {
        let t = ds.drop_last();
        assert(ds =~= t.push(ds.last()));
        assert(f(ds[ds.len() - 1]));
        assert forall|i: int| 0 <= i < t.len() implies f(#[trigger] t[i]) by {
            assert(f(ds[i]));
        }
        lemma_keep_all(t, f);
        text::lemma_filter_push(t, ds.last(), f);
    }
}

/// The lines of joined domains that a rest follows on a new line, or of the
/// joined domains alone.
proof fn lemma_lines_of_join(ds: Seq<Seq<char>>, rest: Seq<char>, tail: Seq<char>)
    requires
        forall|i: int| 0 <= i < ds.len() ==> one_line(#[trigger] ds[i]),
        ds.len() > 0 ==> (tail.len() == 0 && rest.len() == 0) || tail == seq!['\n'] + rest,
    ensures
        ds.len() > 0 ==> lines(join(ds, seq!['\n']) + tail) == ds + lines(rest),
    decreases ds.len(),
{
    let nl = seq!['\n'];
    if ds.len() == 0 {
    } else if ds.len() == 1 {
        lemma_first_line(ds[0], rest, tail);
        assert(join(ds, nl) =~= ds[0]);
        assert(seq![ds[0]] + lines(rest) =~= ds + lines(rest));
    } else {
        let t = ds.drop_last();
        let d = ds.last();
        assert(one_line(ds[ds.len() - 1]));
        assert forall|i: int| 0 <= i < t.len() implies one_line(#[trigger] t[i]) by {
            assert(one_line(ds[i]));
        }
        lemma_lines_of_join(t, d + tail, nl + (d + tail));
        assert(join(ds, nl) + tail =~= join(t, nl) + (nl + (d + tail)));
        lemma_first_line(d, rest, tail);
        assert(t + (seq![d] + lines(rest)) =~= ds + lines(rest));
    }
}

proof fn lemma_first_line(d: Seq<char>, rest: Seq<char>, tail: Seq<char>)
    requires
        one_line(d),
        (tail.len() == 0 && rest.len() == 0) || tail == seq!['\n'] + rest,
    ensures
        lines(d + tail) == seq![d] + lines(rest),
{
    let s = d + tail;
    if tail.len() == 0 {
        assert(s =~= d);
        text::lemma_position(s, '\n');
        assert(lines(rest) =~= Seq::<Seq<char>>::empty());
        assert(seq![d] + lines(rest) =~= seq![d]);
    } else {
        assert forall|j: int| 0 <= j < d.len() implies #[trigger] s[j] != '\n' by {
            assert(d.contains(d[j]));
        }
        assert(s[d.len() as int] == tail[0]);
        text::lemma_position_is(s, '\n', d.len() as int);
        assert(s.take(d.len() as int) =~= d);
        assert(s.skip(d.len() as int + 1) =~= rest);
    }
}

/// What one list contributes to a refresh. The name is empty where nothing could
/// be had.
pub struct ListResult {
    pub name: String,
    /// The list's map; none where its file could not be opened any more.
    pub map: Option<FstMap>,
    pub count: usize,
    pub stats: Option<AdblockStats>,
}

/// A list that contributes nothing.
pub fn failed_list() -> (r: ListResult)
    ensures
        r.name@.len() == 0,
        r.map is None,
        r.count == 0,
        r.stats is None,
{
    ListResult { name: String::new(), map: None, count: 0, stats: None }
}

/// The files that are kept of a list, with their ages in nanoseconds.
pub struct ListCaches {
    pub map: Option<FstMap>,
    pub map_age: u64,
    pub domains: Option<String>,
    pub domains_age: u64,
    pub stats: Option<AdblockStats>,
}

/// What to do with a list, given what is kept of it.
pub enum ListStep {
    /// The kept map is fresh.
    Ready(ListResult),
    /// The kept domains are fresh: build the map from them.
    Build(Vec<String>, Option<AdblockStats>),
    /// The list has to be fetched.
    Fetch(ListCaches),
}

/// The kept domains that are fresh, if there are any.
pub open spec fn fresh_domains(c: ListCaches) -> Option<Seq<Seq<char>>> {
    match c.domains {
        Some(t) if c.domains_age <= LIST_CACHE_TTL && cached_domains(t@).len() > 0 => Some(cached_domains(t@)),
        _ => None,
    }
}

/// Decides what to do with a list: a fresh map is used as it is, fresh domains
/// are built into a map, and otherwise, or where `force` is set, the list is fetched.
pub fn plan_list(name: String, caches: ListCaches, force: bool) -> (r: ListStep)
    ensures
        if !force && caches.map is Some && caches.map_age <= LIST_CACHE_TTL {
            r is Ready && r->Ready_0.name@ == name@ && r->Ready_0.map == caches.map && r->Ready_0.count
                == caches.map->0.keys().len() && r->Ready_0.stats == caches.stats
        } else if !force && fresh_domains(caches) is Some {
            r is Build && texts(r->Build_0@) == fresh_domains(caches)->0 && r->Build_1 == caches.stats
        } else {
            r is Fetch && r->Fetch_0 == caches
        },
{
    if force {
        return ListStep::Fetch(caches);
    }
    if caches.map.is_some() && is_fresh(caches.map_age) {
        let stats = caches.stats;
        match caches.map {
            Some(m) => {
                let count = m.len();
                return ListStep::Ready(ListResult { name, map: Some(m), count, stats });
            },
            None => {
                return ListStep::Ready(failed_list());
            },
        }
    }
    let mut kept: Vec<String> = Vec::new();
    if is_fresh(caches.domains_age) {
        if let Some(t) = &caches.domains {
            kept = parse_text_cache(t.as_str());
        }
    }
    if kept.len() > 0 {
        assert(texts(kept@).len() == kept@.len());
        return ListStep::Build(kept, caches.stats);
    }
    assert(texts(kept@).len() == 0);
    ListStep::Fetch(caches)
}

/// The domains to use after a fetch: what was fetched, or else what is kept,
/// however old.
pub fn after_fetch(fetched: Option<(Vec<String>, Option<AdblockStats>)>, caches: &ListCaches) -> (r: (
    Vec<String>,
    Option<AdblockStats>,
))
    ensures
        match fetched {
            Some(f) => r == f,
            None => if caches.domains is Some && cached_domains(caches.domains->0@).len() > 0 {
                texts(r.0@) == cached_domains(caches.domains->0@) && r.1 == caches.stats
            } else {
                r.0@.len() == 0 && r.1 is None
            },
        },
{
    match fetched {
        Some(f) => f,
        None => {
            if let Some(t) = &caches.domains {
                let stale = parse_text_cache(t.as_str());
                if stale.len() > 0 {
                    assert(texts(stale@).len() == stale@.len());
                    return (stale, caches.stats);
                }
                assert(texts(stale@).len() == 0);
            }
            (Vec::new(), None)
        },
    }
}

/// The contribution of a list with these domains. Without domains the kept map is
/// used, however old; without that either, the list contributes nothing.
pub fn build_list(
    name: String,
    domains: Vec<String>,
    stats: Option<AdblockStats>,
    stale: Option<FstMap>,
    stale_stats: Option<AdblockStats>,
) -> (r: ListResult)
    ensures
        if domains@.len() > 0 {
            r.name@ == name@ && r.map is Some && r.map->0.keys() == domain_keys(texts(domains@)) && r.count
                == r.map->0.keys().len() && r.stats == stats
        } else if stale is Some {
            r.name@ == name@ && r.map == stale && r.count == stale->0.keys().len() && r.stats == stale_stats
        } else {
            r.name@.len() == 0 && r.map is None && r.count == 0 && r.stats is None
        },
{
    if domains.len() == 0 {
        return match stale {
            Some(m) => {
                let count = m.len();
                ListResult { name, map: Some(m), count, stats: stale_stats }
            },
            None => failed_list(),
        };
    }
    match loader::map_of_domains(domains) {
        Ok(m) => {
            let count = m.len();
            ListResult { name, map: Some(m), count, stats }
        },
        Err(_) => failed_list(),
    }
}

/// What a refresh of all lists of one polarity yields.
pub struct ListSetRefresh {
    pub fst: FstMap,
    /// The map file of the merged lists.
    pub bytes: Vec<u8>,
    pub counts: StringHashMap<usize>,
    pub stats: StringHashMap<AdblockStats>,
    pub unique_count: usize,
}

/// The counts of the lists that contribute; of lists with the same name the last.
pub open spec fn result_counts(rs: Seq<ListResult>) -> Map<Seq<char>, usize>
    decreases rs.len(),
{
    if rs.len() == 0 {
        Map::empty()
    } else if rs.last().name@.len() > 0 {
        result_counts(rs.drop_last()).insert(rs.last().name@, rs.last().count)
    } else {
        result_counts(rs.drop_last())
    }
}

/// The breakdowns of the lists that contribute and have one.
pub open spec fn result_stats(rs: Seq<ListResult>) -> Map<Seq<char>, AdblockStats>
    decreases rs.len(),
{
    if rs.len() == 0 {
        Map::empty()
    } else if rs.last().name@.len() > 0 && rs.last().stats is Some {
        result_stats(rs.drop_last()).insert(rs.last().name@, rs.last().stats->0)
    } else {
        result_stats(rs.drop_last())
    }
}

/// The encoded names of the lists that contribute.
pub open spec fn result_keys(rs: Seq<ListResult>) -> Set<Seq<u8>> {
    Set::new(
        |k: Seq<u8>|
            exists|i: int|
                0 <= i < rs.len() && (#[trigger] rs[i]).name@.len() > 0 && rs[i].map is Some
                    && rs[i].map->0.keys().contains(k),
    )
}

/// Some list contributes.
pub open spec fn some_result(rs: Seq<ListResult>) -> bool {
    exists|i: int| 0 <= i < rs.len() && (#[trigger] rs[i]).name@.len() > 0
}

/// What is said when no list could be had.
pub open spec fn all_failed_message(polarity: ListPolarity) -> Seq<char> {
    "all enabled "@ + (match polarity {
        ListPolarity::Block => "blocklists"@,
        ListPolarity::Allow => "allowlists"@,
    }) + " failed and no cached domains are available"@
}

/// Merges what the enabled lists contribute. It is an error if there are lists and
/// none of them contributes.
pub fn refresh_list_set(results: Vec<ListResult>, polarity: ListPolarity) -> (r: Result<ListSetRefresh>)
    ensures
        r is Ok <==> results@.len() == 0 || some_result(results@),
        r is Err ==> r->Err_0 is Fst && r->Err_0->Fst_0@ == all_failed_message(polarity),
        r is Ok ==> {
            let s = r->Ok_0;
            &&& s.fst.keys() == result_keys(results@)
            &&& set_file(s.bytes@, result_keys(results@))
            &&& s.counts@ == result_counts(results@)
            &&& s.stats@ == result_stats(results@)
            &&& s.unique_count == result_keys(results@).len()
        },
{
    let ghost all = results@;
    let total: usize = results.len();
    let mut counts: StringHashMap<usize> = StringHashMap::new();
    let mut stats: StringHashMap<AdblockStats> = StringHashMap::new();
    let mut maps: Vec<FstMap> = Vec::new();
    let mut any = false;
    let mut i: usize = 0;
    while i < results.len()
        invariant
            i <= results@.len(),
            all == results@,
            any == some_result(all.take(i as int)),
            counts@ == result_counts(all.take(i as int)),
            stats@ == result_stats(all.take(i as int)),
            fst_map::union_keys(maps@) == result_keys(all.take(i as int)),
        decreases results@.len() - i,
    {
        let ghost prev = all.take(i as int);
        let ghost next = all.take(i + 1);
        let ghost before = maps@;
        proof {
            assert(next.drop_last() =~= prev);
            assert(next.last() == all[i as int]);
            assert(next =~= prev.push(all[i as int]));
            lemma_result_push(prev, all[i as int]);
        }
        if !results[i].name.as_str().is_empty() {
            any = true;
            if let Some(s) = results[i].stats {
                stats.insert(results[i].name.clone(), s);
            }
            counts.insert(results[i].name.clone(), results[i].count);
            if let Some(m) = &results[i].map {
                let copy = m.clone();
                maps.push(copy);
                proof {
                    fst_map::lemma_union_push(before, copy);
                }
            }
        }
        i = i + 1;
    }
    assert(all.take(all.len() as int) =~= all);
    if total > 0 && !any {
        let mut message = "all enabled ".to_string();
        message.append(
            match polarity {
                ListPolarity::Block => "blocklists",
                ListPolarity::Allow => "allowlists",
            },
        );
        message.append(" failed and no cached domains are available");
        return Err(FeriteError::Fst(message));
    }
    let bytes = fst_map::merge_maps(&maps).unwrap();
    let copy = slice_to_vec(bytes.as_slice());
    proof {
        fst_map::set_files_are_files(bytes@, fst_map::union_keys(maps@));
    }
    let fst = fst_map::ram_fst(copy).unwrap();
    let unique_count = fst.len();
    Ok(ListSetRefresh { fst, bytes, counts, stats, unique_count })
}

proof fn lemma_result_push(rs: Seq<ListResult>, x: ListResult)
    ensures
        some_result(rs.push(x)) == (some_result(rs) || x.name@.len() > 0),
        result_keys(rs.push(x)) == (if x.name@.len() > 0 && x.map is Some {
            result_keys(rs).union(x.map->0.keys())
        } else {
            result_keys(rs)
        }),
{
    let w = rs.push(x);
    if some_result(rs) {
        let i = choose|i: int| 0 <= i < rs.len() && (#[trigger] rs[i]).name@.len() > 0;
        assert(w[i] == rs[i]);
    }
    if x.name@.len() > 0 {
        assert(w[rs.len() as int] == x);
    }
    if some_result(w) {
        let i = choose|i: int| 0 <= i < w.len() && (#[trigger] w[i]).name@.len() > 0;
        if i < rs.len() {
            assert(w[i] == rs[i]);
        }
    }
    let keys = if x.name@.len() > 0 && x.map is Some {
        x.map->0.keys()
    } else {
        Set::empty()
    };
    assert forall|k: Seq<u8>| result_keys(w).contains(k) == result_keys(rs).union(keys).contains(k) by {
        if result_keys(rs).contains(k) {
            let i = choose|i: int|
                0 <= i < rs.len() && (#[trigger] rs[i]).name@.len() > 0 && rs[i].map is Some
                    && rs[i].map->0.keys().contains(k);
            assert(w[i] == rs[i]);
        }
        if keys.contains(k) {
            assert(w[rs.len() as int] == x);
        }
        if result_keys(w).contains(k) {
            let i = choose|i: int|
                0 <= i < w.len() && (#[trigger] w[i]).name@.len() > 0 && w[i].map is Some
                    && w[i].map->0.keys().contains(k);
            if i < rs.len() {
                assert(w[i] == rs[i]);
            }
        }
    }
    assert(result_keys(w) =~= result_keys(rs).union(keys));
    assert(result_keys(rs).union(Set::empty()) =~= result_keys(rs));
}

}
