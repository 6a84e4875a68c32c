//! The clients and their statistics, and the names that they are given.
use vstd::prelude::*;
use vstd::slice::*;
use vstd::string::*;

use crate::blocklist::engine::{names_member, Blocklist, BlocklistView};
use crate::clients;
use crate::clients::registry::{describes, ClientRegistry, RegistryView};
use crate::clients::{client_ip, client_key, mac_of_text, DeviceInfo};
use crate::error::{config_error, FeriteError, Result};
use crate::ip;
use crate::ip::IpAddr;
use crate::text;
use crate::text::{texts, trim};

verus! {

/// Which clients are listed.
#[derive(Debug, Clone, Copy)]
pub struct ListClientsParams {
    pub limit: Option<usize>,
    /// The hours to look back; all retained history where this is absent or zero.
    pub hours: Option<u64>,
    /// All retained history.
    pub all_time: Option<bool>,
}

impl Default for ListClientsParams {
    fn default() -> (r: ListClientsParams)
        ensures
            r.limit is None,
            r.hours is None,
            r.all_time is None,
    {
        ListClientsParams { limit: None, hours: None, all_time: None }
    }
}

/// The hours to look back: 24 where nothing is said, at least one, at most a week.
pub open spec fn window_hours(hours: Option<u64>) -> int {
    match hours {
        None => 24,
        Some(h) => if h < 1 {
            1
        } else if h > 168 {
            168
        } else {
            h as int
        },
    }
}

/// The window of time, from a time and its length in hours, or from the beginning.
pub open spec fn window(all: bool, hours: Option<u64>, now: i64) -> (i64, i64) {
    (
        now,
        if all {
            0
        } else {
            (now - window_hours(hours) * 3600) as i64
        },
    )
}

pub(crate) fn time_span(all: bool, hours: Option<u64>, now: i64) -> (r: (i64, i64))
    requires
        now >= 0,
    ensures
        r == window(all, hours, now),
{
    if all {
        return (now, 0);
    }
    let h: u64 = match hours {
        None => 24,
        Some(h) => if h < 1 {
            1
        } else if h > 168 {
            168
        } else {
            h
        },
    };
    (now, now - (h as i64) * 3600)
}

/// The clients are listed from the beginning: that was asked for, or no hours were
/// given, or zero hours.
pub open spec fn clients_all_time(p: ListClientsParams) -> bool {
    p.all_time == Some(true) || p.hours is None || p.hours == Some(0u64)
}

/// The time up to which and from which clients are listed, in seconds since 1970.
pub fn client_time_window(params: &ListClientsParams, now: i64) -> (r: (i64, i64))
    requires
        now >= 0,
    ensures
        r == window(clients_all_time(*params), params.hours, now),
{
    let all = (match params.all_time {
        Some(b) => b,
        None => false,
    }) || match params.hours {
        Some(h) => h == 0,
        None => true,
    };
    time_span(all, params.hours, now)
}

/// How many clients are listed: 50 where nothing is said, at most 500.
pub fn client_limit(params: &ListClientsParams) -> (r: usize)
    ensures
        r == (match params.limit {
            None => 50,
            Some(n) => if n < 500 {
                n as int
            } else {
                500
            },
        }),
{
    match params.limit {
        None => 50,
        Some(n) => if n < 500 {
            n
        } else {
            500
        },
    }
}

/// What is counted of a device.
#[derive(Debug)]
pub struct DeviceStat {
    pub device: String,
    pub total: u64,
    pub blocked: u64,
    pub last_seen: i64,
}

/// A client: one or more devices under one name.
#[derive(Debug)]
pub struct ClientGroup {
    pub name: String,
    pub ips: Vec<String>,
    pub macs: Vec<String>,
    pub total: u64,
    pub blocked: u64,
    pub last_seen: i64,
    /// The name was given to it.
    pub is_alias: bool,
    /// Nothing is blocked for it.
    pub blocking_bypassed: bool,
}

/// A client as a plain value.
pub ghost struct GroupView {
    pub name: Seq<char>,
    pub ips: Seq<Seq<char>>,
    pub macs: Seq<Seq<char>>,
    pub total: u64,
    pub blocked: u64,
    pub last_seen: i64,
    pub is_alias: bool,
    pub blocking_bypassed: bool,
}

impl View for ClientGroup {
    type V = GroupView;

    open spec fn view(&self) -> GroupView {
        GroupView {
            name: self.name@,
            ips: texts(self.ips@),
            macs: texts(self.macs@),
            total: self.total,
            blocked: self.blocked,
            last_seen: self.last_seen,
            is_alias: self.is_alias,
            blocking_bypassed: self.blocking_bypassed,
        }
    }
}

/// Clients as plain values.
pub open spec fn group_views(v: Seq<ClientGroup>) -> Seq<GroupView> {
    v.map_values(|g: ClientGroup| g@)
}

/// A list with a text added unless it is there.
pub open spec fn with_unique(s: Seq<Seq<char>>, x: Seq<char>) -> Seq<Seq<char>> {
    if s.contains(x) {
        s
    } else {
        s.push(x)
    }
}

/// A list with texts added, each unless it is there.
pub open spec fn with_all_unique(s: Seq<Seq<char>>, xs: Seq<Seq<char>>) -> Seq<Seq<char>>
    decreases xs.len(),
{
    if xs.len() == 0 {
        s
    } else {
        with_unique(with_all_unique(s, xs.drop_last()), xs.last())
    }
}

/// Adds a text to a list unless it is there.
pub fn push_unique(values: &mut Vec<String>, value: String)
    ensures
        texts(final(values)@) == with_unique(texts(old(values)@), value@),
{
    let ghost v = texts(values@);
    let mut i: usize = 0;
    while i < values.len()
        invariant
            i <= values@.len(),
            v == texts(values@),
            v == texts(old(values)@),
            *values == *old(values),
            forall|j: int| 0 <= j < i ==> #[trigger] v[j] != value@,
        decreases values@.len() - i,
    {
        assert(v[i as int] == values@[i as int]@);
        if text::str_same(values[i].as_str(), value.as_str()) {
            assert(v.contains(value@));
            return;
        }
        i = i + 1;
    }
    proof {
        text::lemma_texts_push(values@, value);
    }
    values.push(value);
}

fn push_all_unique(values: &mut Vec<String>, more: &Vec<String>)
    ensures
        texts(final(values)@) == with_all_unique(texts(old(values)@), texts(more@)),
{
    let ghost s = texts(values@);
    let ghost m = texts(more@);
    let mut i: usize = 0;
    while i < more.len()
        invariant
            i <= more@.len(),
            m == texts(more@),
            texts(values@) == with_all_unique(s, m.take(i as int)),
        decreases more@.len() - i,
    {
        proof {
            assert(m.take(i + 1).drop_last() =~= m.take(i as int));
            assert(m.take(i + 1).last() == more@[i as int]@);
        }
        push_unique(values, more[i].clone());
        i = i + 1;
    }
    assert(m.take(m.len() as int) =~= m);
}

fn push_all(values: &mut Vec<String>, more: &Vec<String>)
    ensures
        texts(final(values)@) == texts(old(values)@) + texts(more@),
{
    let ghost s = texts(values@);
    let ghost m = texts(more@);
    let mut i: usize = 0;
    assert(s + m.take(0) =~= s);
    while i < more.len()
        invariant
            i <= more@.len(),
            m == texts(more@),
            texts(values@) == s + m.take(i as int),
        decreases more@.len() - i,
    {
        let x = more[i].clone();
        proof {
            text::lemma_texts_push(values@, x);
            assert(s + m.take(i + 1) =~= (s + m.take(i as int)).push(x@));
        }
        values.push(x);
        i = i + 1;
    }
    assert(m.take(m.len() as int) =~= m);
}

/// A client before anything was counted.
pub open spec fn fresh_group(row: GroupView) -> GroupView {
    GroupView { ips: seq![], macs: seq![], total: 0, blocked: 0, last_seen: 0, ..row }
}

/// A client after a row was added to it.
pub open spec fn with_row(g: GroupView, row: GroupView, unique_ips: bool) -> GroupView {
    GroupView {
        name: g.name,
        ips: if unique_ips {
            with_all_unique(g.ips, row.ips)
        } else {
            g.ips + row.ips
        },
        macs: with_all_unique(g.macs, row.macs),
        total: (g.total + row.total) as u64,
        blocked: (g.blocked + row.blocked) as u64,
        last_seen: if row.last_seen > g.last_seen {
            row.last_seen
        } else {
            g.last_seen
        },
        is_alias: g.is_alias || row.is_alias,
        blocking_bypassed: g.blocking_bypassed || row.blocking_bypassed,
    }
}

/// The index of the client with a name, or the number of clients.
pub open spec fn group_index(gs: Seq<GroupView>, name: Seq<char>) -> int
    decreases gs.len(),
{
    if gs.len() == 0 {
        0
    } else if group_index(gs.drop_last(), name) < gs.len() - 1 {
        group_index(gs.drop_last(), name)
    } else if gs.last().name == name {
        gs.len() - 1
    } else {
        gs.len() as int
    }
}

/// The clients after a row was added: to the client of its name, or as a new one.
pub open spec fn add_row(gs: Seq<GroupView>, row: GroupView, unique_ips: bool) -> Seq<GroupView> {
    let i = group_index(gs, row.name);
    if i < gs.len() {
        gs.update(i, with_row(gs[i], row, unique_ips))
    } else {
        gs.push(with_row(fresh_group(row), row, unique_ips))
    }
}

/// The clients that rows belong to, in the order in which their names first appear.
pub open spec fn grouped(rows: Seq<GroupView>, unique_ips: bool) -> Seq<GroupView>
    decreases rows.len(),
{
    if rows.len() == 0 {
        seq![]
    } else {
        add_row(grouped(rows.drop_last(), unique_ips), rows.last(), unique_ips)
    }
}

/// The sums of the counts of rows.
pub open spec fn counted(rows: Seq<GroupView>) -> (nat, nat)
    decreases rows.len(),
{
    if rows.len() == 0 {
        (0, 0)
    } else {
        let (t, b) = counted(rows.drop_last());
        (t + rows.last().total as nat, b + rows.last().blocked as nat)
    }
}

proof fn lemma_group_index(gs: Seq<GroupView>, name: Seq<char>)
    ensures
        0 <= group_index(gs, name) <= gs.len(),
        group_index(gs, name) < gs.len() ==> gs[group_index(gs, name)].name == name,
        forall|j: int| 0 <= j < group_index(gs, name) ==> (#[trigger] gs[j]).name != name,
    decreases gs.len(),
{
    if gs.len() > 0 {
        lemma_group_index(gs.drop_last(), name);
        let i = group_index(gs, name);
        assert forall|j: int| 0 <= j < i implies (#[trigger] gs[j]).name != name by {
            if j < gs.len() - 1 {
                assert(gs.drop_last()[j] == gs[j]);
            }
        }
    }
}

/// No client has counted more than all rows together.
proof fn lemma_counts(rows: Seq<GroupView>, unique_ips: bool)
    requires
        counted(rows).0 <= u64::MAX,
        counted(rows).1 <= u64::MAX,
    ensures
        forall|i: int|
            0 <= i < grouped(rows, unique_ips).len() ==> (#[trigger] grouped(rows, unique_ips)[i]).total <= counted(
                rows,
            ).0 && grouped(rows, unique_ips)[i].blocked <= counted(rows).1,
    decreases rows.len(),
{
    if rows.len() > 0 {
        let t = rows.drop_last();
        lemma_counts(t, unique_ips);
        let gs = grouped(t, unique_ips);
        let row = rows.last();
        let k = group_index(gs, row.name);
        lemma_group_index(gs, row.name);
        let after = grouped(rows, unique_ips);
        assert forall|i: int| 0 <= i < after.len() implies (#[trigger] after[i]).total <= counted(rows).0
            && after[i].blocked <= counted(rows).1 by {
            if k < gs.len() && i == k {
                assert(gs[k].total <= counted(t).0);
            } else if i < gs.len() {
                assert(after[i] == gs[i]);
            }
        }
    }
}

fn find_group(groups: &Vec<ClientGroup>, name: &str) -> (r: usize)
    ensures
        r == group_index(group_views(groups@), name@),
        r <= groups@.len(),
{
    let ghost gv = group_views(groups@);
    let mut i: usize = 0;
    assert(gv.take(0) =~= Seq::<GroupView>::empty());
    while i < groups.len()
        invariant
            i <= groups@.len(),
            gv == group_views(groups@),
            group_index(gv.take(i as int), name@) == i,
        decreases groups@.len() - i,
    {
        proof {
            assert(gv.take(i + 1).drop_last() =~= gv.take(i as int));
            assert(gv.take(i + 1).last() == groups@[i as int]@);
        }
        if text::str_same(groups[i].name.as_str(), name) {
            proof {
                lemma_group_index(gv, name@);
                lemma_group_index(gv.take(i as int), name@);
                assert(gv[i as int].name == name@);
                assert forall|j: int| 0 <= j < i implies (#[trigger] gv[j]).name != name@ by {
                    assert(gv.take(i as int)[j] == gv[j]);
                }
                let k = group_index(gv, name@);
                if k < i {
                    assert(gv[k].name == name@);
                }
                assert(k == i);
            }
            return i;
        }
        i = i + 1;
    }
    assert(gv.take(gv.len() as int) =~= gv);
    i
}

fn add_to(g: ClientGroup, row: &ClientGroup, unique_ips: bool) -> (r: ClientGroup)
    requires
        g.total + row.total <= u64::MAX,
        g.blocked + row.blocked <= u64::MAX,
    ensures
        r@ == with_row(g@, row@, unique_ips),
{
    let mut g = g;
    if unique_ips {
        push_all_unique(&mut g.ips, &row.ips);
    } else {
        push_all(&mut g.ips, &row.ips);
    }
    push_all_unique(&mut g.macs, &row.macs);
    ClientGroup {
        name: g.name,
        ips: g.ips,
        macs: g.macs,
        total: g.total + row.total,
        blocked: g.blocked + row.blocked,
        last_seen: if row.last_seen > g.last_seen {
            row.last_seen
        } else {
            g.last_seen
        },
        is_alias: g.is_alias || row.is_alias,
        blocking_bypassed: g.blocking_bypassed || row.blocking_bypassed,
    }
}

/// Merges rows under one name into one client.
pub fn group_rows(rows: &Vec<ClientGroup>, unique_ips: bool) -> (r: Vec<ClientGroup>)
    requires
        counted(group_views(rows@)).0 <= u64::MAX,
        counted(group_views(rows@)).1 <= u64::MAX,
    ensures
        group_views(r@) == grouped(group_views(rows@), unique_ips),
{
    let ghost rv = group_views(rows@);
    let mut groups: Vec<ClientGroup> = Vec::new();
    let mut i: usize = 0;
    assert(group_views(groups@) =~= grouped(rv.take(0), unique_ips));
    while i < rows.len()
        invariant
            i <= rows@.len(),
            rv == group_views(rows@),
            counted(rv).0 <= u64::MAX,
            counted(rv).1 <= u64::MAX,
            group_views(groups@) == grouped(rv.take(i as int), unique_ips),
        decreases rows@.len() - i,
    {
        let row = &rows[i];
        let ghost gv = group_views(groups@);
        proof {
            let before = rv.take(i as int);
            let now = rv.take(i + 1);
            assert(now.drop_last() =~= before);
            assert(now.last() == row@);
            lemma_counted_prefix(rv, i as int);
            lemma_counted_prefix(rv, i + 1);
            lemma_counts(before, unique_ips);
            lemma_group_index(gv, row.name@);
        }
        let k = find_group(&groups, row.name.as_str());
        if k < groups.len() {
            assert(gv[k as int] == groups@[k as int]@);
            let empty = ClientGroup {
                name: String::new(),
                ips: Vec::new(),
                macs: Vec::new(),
                total: 0,
                blocked: 0,
                last_seen: 0,
                is_alias: false,
                blocking_bypassed: false,
            };
            let mut taken = empty;
            std::mem::swap(&mut taken, &mut groups[k]);
            let merged = add_to(taken, row, unique_ips);
            groups.set(k, merged);
            assert(group_views(groups@) =~= gv.update(k as int, with_row(gv[k as int], row@, unique_ips)));
        } else {
            let fresh = ClientGroup {
                name: row.name.clone(),
                ips: Vec::new(),
                macs: Vec::new(),
                total: 0,
                blocked: 0,
                last_seen: 0,
                is_alias: row.is_alias,
                blocking_bypassed: row.blocking_bypassed,
            };
            assert(texts(fresh.ips@) =~= seq![]);
            assert(texts(fresh.macs@) =~= seq![]);
            assert(fresh@ == fresh_group(row@));
            let g = add_to(fresh, row, unique_ips);
            groups.push(g);
            assert(group_views(groups@) =~= gv.push(g@));
        }
        i = i + 1;
    }
    assert(rv.take(rv.len() as int) =~= rv);
    groups
}

proof fn lemma_counted_prefix(rows: Seq<GroupView>, n: int)
    requires
        0 <= n <= rows.len(),
    ensures
        counted(rows.take(n)).0 <= counted(rows).0,
        counted(rows.take(n)).1 <= counted(rows).1,
    decreases rows.len() - n,
{
    if n < rows.len() {
        lemma_counted_prefix(rows, n + 1);
        assert(rows.take(n + 1).drop_last() =~= rows.take(n));
    } else {
        assert(rows.take(n) =~= rows);
    }
}

/// Where a client with this total belongs in a list by totals: behind all that have
/// as many or more.
pub open spec fn rank_index(gs: Seq<GroupView>, total: u64) -> int
    decreases gs.len(),
{
    if gs.len() == 0 {
        0
    } else if gs.last().total >= total {
        gs.len() as int
    } else {
        rank_index(gs.drop_last(), total)
    }
}

/// The clients by their totals, the largest first; clients with the same total in
/// their order.
pub open spec fn ranked(gs: Seq<GroupView>) -> Seq<GroupView>
    decreases gs.len(),
{
    if gs.len() == 0 {
        seq![]
    } else {
        let r = ranked(gs.drop_last());
        r.insert(rank_index(r, gs.last().total), gs.last())
    }
}

proof fn lemma_rank_index(gs: Seq<GroupView>, total: u64)
    ensures
        0 <= rank_index(gs, total) <= gs.len(),
        rank_index(gs, total) > 0 ==> gs[rank_index(gs, total) - 1].total >= total,
        forall|j: int| rank_index(gs, total) <= j < gs.len() ==> (#[trigger] gs[j]).total < total,
    decreases gs.len(),
{
    if gs.len() > 0 && gs.last().total < total {
        lemma_rank_index(gs.drop_last(), total);
        assert forall|j: int| rank_index(gs, total) <= j < gs.len() implies (#[trigger] gs[j]).total < total by {
            if j < gs.len() - 1 {
                assert(gs.drop_last()[j] == gs[j]);
            }
        }
    }
}

/// The ranking holds the same clients, from the largest total to the smallest.
pub proof fn ranking_sorts(gs: Seq<GroupView>)
    ensures
        ranked(gs).to_multiset() == gs.to_multiset(),
        ranked(gs).len() == gs.len(),
        forall|i: int, j: int|
            0 <= i <= j < ranked(gs).len() ==> (#[trigger] ranked(gs)[i]).total >= (#[trigger] ranked(gs)[j]).total,
    decreases gs.len(),
{
    broadcast use vstd::seq_lib::group_to_multiset_ensures;

    if gs.len() > 0 {
        let t = gs.drop_last();
        ranking_sorts(t);
        let r = ranked(t);
        let x = gs.last();
        let k = rank_index(r, x.total);
        lemma_rank_index(r, x.total);
        let s = r.insert(k, x);
        assert(gs =~= t.push(x));
        assert(s.to_multiset() =~= r.to_multiset().insert(x)) by {
            vstd::seq_lib::to_multiset_insert(r, k, x);
        }
        assert(gs.to_multiset() =~= t.to_multiset().insert(x));
        assert forall|i: int, j: int| 0 <= i <= j < s.len() implies (#[trigger] s[i]).total >= (#[trigger] s[j]).total by {
            let a = if i < k {
                i
            } else {
                i - 1
            };
            let b = if j < k {
                j
            } else {
                j - 1
            };
            if i == j {
            } else if i == k {
                assert(s[j] == r[j - 1]);
            } else if j == k {
                assert(s[i] == r[i]);
                assert(r[i].total >= r[k - 1].total);
            } else {
                assert(s[i] == r[a] && s[j] == r[b]);
                assert(r[a].total >= r[b].total);
            }
        }
    }
}

/// The first ones of the ranking.
pub open spec fn busiest(gs: Seq<GroupView>, limit: usize) -> Seq<GroupView> {
    if limit < ranked(gs).len() {
        ranked(gs).take(limit as int)
    } else {
        ranked(gs)
    }
}

/// Sorts clients by their totals, the largest first, and keeps the first ones.
pub fn rank_groups(groups: Vec<ClientGroup>, limit: usize) -> (r: Vec<ClientGroup>)
    ensures
        group_views(r@) == busiest(group_views(groups@), limit),
{
    let ghost gv = group_views(groups@);
    let n = groups.len();
    let mut rest = groups;
    let mut out: Vec<ClientGroup> = Vec::new();
    let mut i: usize = 0;
    assert(group_views(out@) =~= ranked(gv.take(0)));
    assert(gv.skip(0) =~= gv);
    while i < n
        invariant
            i <= n,
            n == gv.len(),
            group_views(rest@) == gv.skip(i as int),
            group_views(out@) == ranked(gv.take(i as int)),
            out@.len() == i,
        decreases n - i,
    {
        let ghost rv = gv.skip(i as int);
        let ghost ov = group_views(out@);
        let ghost rest0 = rest@;
        assert(rest@.len() == group_views(rest@).len());
        let g = rest.remove(0);
        proof {
            assert(g@ == rv[0]);
            assert forall|j: int| 0 <= j < rest@.len() implies (#[trigger] group_views(rest@)[j]) == gv.skip(i + 1)[j] by {
                assert(rest@[j] == rest0[j + 1]);
                assert(group_views(rest0)[j + 1] == rv[j + 1]);
            }
            assert(group_views(rest@) =~= gv.skip(i + 1));
            assert(gv.take(i + 1).drop_last() =~= gv.take(i as int));
            assert(gv.take(i + 1).last() == g@);
            assert(ov.take(ov.len() as int) =~= ov);
        }
        let mut k: usize = out.len();
        while k > 0 && out[k - 1].total < g.total
            invariant
                k <= out@.len(),
                ov == group_views(out@),
                rank_index(ov, g.total) == rank_index(ov.take(k as int), g.total),
            decreases k,
        {
            assert(ov.take(k as int).drop_last() =~= ov.take(k - 1));
            assert(ov.take(k as int).last() == out@[k - 1]@);
            k = k - 1;
        }
        proof {
            if k > 0 {
                assert(ov.take(k as int).last() == out@[k - 1]@);
            }
            assert(rank_index(ov, g.total) == k);
        }
        let ghost gg = g@;
        out.insert(k, g);
        assert(group_views(out@) =~= ov.insert(k as int, gg));
        i = i + 1;
    }
    assert(gv.take(gv.len() as int) =~= gv);
    let ghost full = group_views(out@);
    if limit < out.len() {
        out.truncate(limit);
        assert(group_views(out@) =~= full.take(limit as int));
    }
    out
}

/// The client is exempt from blocking by its address or its hardware address.
pub open spec fn bypasses(b: BlocklistView, ip: Seq<char>, mac: Option<Seq<char>>) -> bool {
    names_member(client_key(ip), b.client_bypass) || (mac is Some && names_member(client_key(mac->0), b.client_bypass))
}

/// The device is exempt: one of its addresses is, or where none is known its name.
pub open spec fn device_bypasses(b: BlocklistView, device: Seq<char>, ips: Seq<Seq<char>>, mac: Option<Seq<char>>) -> bool {
    if ips.len() == 0 {
        bypasses(b, device, mac)
    } else {
        exists|i: int| 0 <= i < ips.len() && bypasses(b, #[trigger] ips[i], mac)
    }
}

/// The row of a device.
pub open spec fn row_for(v: RegistryView, b: BlocklistView, s: DeviceStat, row: GroupView) -> bool {
    exists|d: DeviceInfo|
        {
            &&& #[trigger] describes(v, s.device@, d)
            &&& row.name == (match d.name {
                Some(n) => n@,
                None => s.device@,
            })
            &&& row.ips == texts(d.ips@)
            &&& row.macs == texts(d.macs@)
            &&& row.total == s.total
            &&& row.blocked == s.blocked
            &&& row.last_seen == s.last_seen
            &&& row.is_alias == d.is_alias
            &&& row.blocking_bypassed == device_bypasses(
                b,
                s.device@,
                texts(d.ips@),
                if d.macs@.len() > 0 {
                    Some(d.macs@[0]@)
                } else {
                    None
                },
            )
        }
}

/// What is shown of a device.
pub fn device_row(registry: &ClientRegistry, blocklist: &Blocklist, s: &DeviceStat) -> (r: ClientGroup)
    ensures
        row_for(registry@, blocklist@, *s, r@),
{
    let info = registry.describe_device(s.device.as_str());
    let ghost d = info;
    let ghost dv = texts(info.ips@);
    let mac: Option<&str> = if info.macs.len() > 0 {
        Some(info.macs[0].as_str())
    } else {
        None
    };
    let ghost gm = if d.macs@.len() > 0 {
        Some(d.macs@[0]@)
    } else {
        None
    };
    let mut bypassed = false;
    if info.ips.len() == 0 {
        bypassed = blocklist.client_bypasses_blocking(s.device.as_str(), mac);
    } else {
        let mut i: usize = 0;
        while i < info.ips.len() && !bypassed
            invariant
                i <= info.ips@.len(),
                dv == texts(info.ips@),
                (match mac {
                    Some(m) => gm == Some(m@),
                    None => gm is None,
                }),
                bypassed == (exists|j: int| 0 <= j < i && bypasses(blocklist@, #[trigger] dv[j], gm)),
            decreases info.ips@.len() - i,
        {
            assert(dv[i as int] == info.ips@[i as int]@);
            bypassed = blocklist.client_bypasses_blocking(info.ips[i].as_str(), mac);
            assert(bypassed == bypasses(blocklist@, dv[i as int], gm));
            i = i + 1;
        }
    }
    assert(bypassed == device_bypasses(blocklist@, s.device@, dv, gm));
    let name = match &info.name {
        Some(n) => n.clone(),
        None => s.device.clone(),
    };
    let r = ClientGroup {
        name,
        ips: info.ips,
        macs: info.macs,
        total: s.total,
        blocked: s.blocked,
        last_seen: s.last_seen,
        is_alias: info.is_alias,
        blocking_bypassed: bypassed,
    };
    assert(describes(registry@, s.device@, d));
    r
}

/// The clients of counted devices: by name, the busiest first, at most `limit`.
pub fn list_clients(
    registry: &ClientRegistry,
    blocklist: &Blocklist,
    stats: &Vec<DeviceStat>,
    limit: usize,
) -> (r: Vec<ClientGroup>)
    requires
        total_of(stats@) <= u64::MAX,
        blocked_of(stats@) <= u64::MAX,
    ensures
        exists|rows: Seq<GroupView>|
            {
                &&& rows.len() == stats@.len()
                &&& forall|i: int|
                    0 <= i < rows.len() ==> row_for(registry@, blocklist@, stats@[i], #[trigger] rows[i])
                &&& group_views(r@) == #[trigger] busiest(grouped(rows, true), limit)
            },
{
    let mut rows: Vec<ClientGroup> = Vec::new();
    let mut i: usize = 0;
    while i < stats.len()
        invariant
            i <= stats@.len(),
            rows@.len() == i,
            forall|j: int|
                0 <= j < i ==> row_for(registry@, blocklist@, stats@[j], #[trigger] group_views(rows@)[j]),
        decreases stats@.len() - i,
    {
        let ghost before = group_views(rows@);
        let row = device_row(registry, blocklist, &stats[i]);
        rows.push(row);
        assert(group_views(rows@) =~= before.push(row@));
        i = i + 1;
    }
    let ghost rv = group_views(rows@);
    proof {
        assert forall|j: int| 0 <= j < rv.len() implies (#[trigger] rv[j]).total == stats@[j].total && rv[j].blocked
            == stats@[j].blocked by {
            assert(row_for(registry@, blocklist@, stats@[j], rv[j]));
        }
        lemma_row_counts(rv, stats@);
    }
    let groups = group_rows(&rows, true);
    assert(group_views(groups@).len() == groups@.len());
    rank_groups(groups, limit)
}

/// What was counted of all devices.
pub open spec fn total_of(stats: Seq<DeviceStat>) -> nat
    decreases stats.len(),
{
    if stats.len() == 0 {
        0
    } else {
        total_of(stats.drop_last()) + stats.last().total as nat
    }
}

/// What was blocked for all devices.
pub open spec fn blocked_of(stats: Seq<DeviceStat>) -> nat
    decreases stats.len(),
{
    if stats.len() == 0 {
        0
    } else {
        blocked_of(stats.drop_last()) + stats.last().blocked as nat
    }
}

proof fn lemma_row_counts(rows: Seq<GroupView>, stats: Seq<DeviceStat>)
    requires
        rows.len() == stats.len(),
        forall|j: int|
            0 <= j < rows.len() ==> (#[trigger] rows[j]).total == stats[j].total && rows[j].blocked == stats[j].blocked,
    ensures
        counted(rows) == (total_of(stats), blocked_of(stats)),
    decreases rows.len(),
{
    if rows.len() > 0 {
        let r = rows.drop_last();
        let s = stats.drop_last();
        assert forall|j: int| 0 <= j < r.len() implies (#[trigger] r[j]).total == s[j].total && r[j].blocked
            == s[j].blocked by {
            assert(rows[j] == r[j]);
        }
        lemma_row_counts(r, s);
        assert(rows[rows.len() - 1] == rows.last());
    }
}

/// A name for an address or a hardware address.
#[derive(Debug)]
pub struct AliasPayload {
    pub ip: Option<String>,
    pub mac: Option<String>,
    pub name: String,
}

/// What a name is given to, or taken from.
#[derive(Debug)]
pub enum AliasKey {
    Ip(IpAddr),
    Mac([u8; 6]),
}

/// The name that is to be given, and to what.
#[derive(Debug)]
pub struct AliasRequest {
    pub key: AliasKey,
    pub name: String,
}

/// What a request for a name comes to: the name trimmed, and either an address or a
/// hardware address.
pub open spec fn alias_outcome(p: AliasPayload, r: Result<AliasRequest>) -> bool {
    if trim(p.name@).len() == 0 {
        r matches Err(e) && config_error(e, "name must not be empty"@)
    } else {
        match (p.ip, p.mac) {
            (Some(a), None) => match client_ip(a@) {
                Some(x) => match r {
                    Ok(q) => q.name@ == trim(p.name@) && q.key == AliasKey::Ip(x),
                    Err(_) => false,
                },
                None => r matches Err(e) && config_error(e, "invalid IP: "@ + a@),
            },
            (None, Some(m)) => match mac_of_text(m@) {
                Some(x) => match r {
                    Ok(q) => q.name@ == trim(p.name@) && (q.key matches AliasKey::Mac(b) && b@ == x),
                    Err(_) => false,
                },
                None => r matches Err(e) && config_error(e, "invalid MAC: "@ + m@),
            },
            _ => r matches Err(e) && config_error(e, "provide exactly one of 'ip' or 'mac'"@),
        }
    }
}

fn invalid(label: &str, value: &str) -> (r: FeriteError)
    ensures
        config_error(r, label@ + value@),
{
    let mut m = String::new();
    m.append(label);
    m.append(value);
    assert(m@ =~= label@ + value@);
    FeriteError::Config(m)
}

/// Reads a request to give a name.
pub fn read_alias(payload: &AliasPayload) -> (r: Result<AliasRequest>)
    ensures
        alias_outcome(*payload, r),
{
    let cs = text::chars_of(payload.name.as_str());
    let name = text::string_of(text::trimmed(cs.as_slice()));
    if text::trimmed(cs.as_slice()).len() == 0 {
        return Err(FeriteError::Config("name must not be empty".to_string()));
    }
    match (&payload.ip, &payload.mac) {
        (Some(a), None) => match clients::parse_ip(a.as_str()) {
            Some(x) => Ok(AliasRequest { key: AliasKey::Ip(x), name }),
            None => Err(invalid("invalid IP: ", a.as_str())),
        },
        (None, Some(m)) => match clients::parse_mac(m.as_str()) {
            Some(x) => Ok(AliasRequest { key: AliasKey::Mac(x), name }),
            None => Err(invalid("invalid MAC: ", m.as_str())),
        },
        _ => Err(FeriteError::Config("provide exactly one of 'ip' or 'mac'".to_string())),
    }
}

/// What a key in a request to take a name away stands for: a hardware address, or
/// else an address.
pub fn alias_key(key: &str) -> (r: Result<AliasKey>)
    ensures
        match mac_of_text(key@) {
            Some(m) => r matches Ok(AliasKey::Mac(b)) && b@ == m,
            None => match client_ip(key@) {
                Some(a) => r matches Ok(AliasKey::Ip(x)) && x == a,
                None => r matches Err(e) && config_error(
                    e,
                    "'"@ + key@ + "' is neither a valid IP nor a MAC address"@,
                ),
            },
        },
{
    if let Some(m) = clients::parse_mac(key) {
        return Ok(AliasKey::Mac(m));
    }
    if let Some(a) = clients::parse_ip(key) {
        return Ok(AliasKey::Ip(a));
    }
    let mut m = String::new();
    m.append("'");
    m.append(key);
    m.append("' is neither a valid IP nor a MAC address");
    assert(m@ =~= "'"@ + key@ + "' is neither a valid IP nor a MAC address"@);
    Err(FeriteError::Config(m))
}

/// The error that a client is not known.
pub fn client_not_found(device: &str) -> (r: FeriteError)
    ensures
        r matches FeriteError::NotFound(m) && m@ == "client '"@ + device@ + "' not found"@,
{
    let mut m = String::new();
    m.append("client '");
    m.append(device);
    m.append("' not found");
    assert(m@ =~= "client '"@ + device@ + "' not found"@);
    FeriteError::NotFound(m)
}

}
