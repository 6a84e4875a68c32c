//! What the answers to queries hold, in terms of the messages that they are made from.
use vstd::prelude::*;
use vstd::string::*;

use crate::blocklist::decision_laws::{
    ends_in, names_decide_without_a_profile, some_key_covers, some_name_covers, some_pattern_matches,
};
use crate::blocklist::engine::{should_block, BlocklistView};
use crate::clients::client_key;
use crate::config::client_keys;
use crate::dns::cache::{normal_bounds, question_key, response_entry, saved_entry, TtlBounds};
use crate::dns::handler::{
    cached_entry, cached_reply, capped, filtered, ignored, ignored_by, least_ttl, local_answer, negative_ttl, opens,
    refused, refused_alias, refused_target, servfail, upstream_answer, upstream_entry, with_id, Intercept, LogView,
    Opening, QueryContext, Upstream,
};
use crate::dns::message::{dns_head, dns_records, dns_reply, dns_rewritten, DataView, HeadView, RecordView, ReplyHead};
use crate::dns::types::{DnsResponse, QueryStatus};
use crate::lru_cache::{has_key, key_index, Entry};
use crate::text::{decimal, flat_map, lower, texts, trim_end_char, unicode_lower};

verus! {

/// The record is an alias for a domain that is blocked for clients without a profile. The
/// domain is taken in lower case and without dots at its end.
pub open spec fn leads_astray(v: BlocklistView, r: RecordView, target: Seq<char>) -> bool {
    match r.data {
        DataView::Cname(n) => target == trim_end_char(unicode_lower(n), '.') && should_block(v, target, None),
        _ => false,
    }
}

/// The name is exempt by an entry, a pattern or an allow list.
pub open spec fn exempt_name(v: BlocklistView, d: Seq<char>) -> bool {
    some_name_covers(v.whitelist, d) || some_pattern_matches(v.whitelist_wild, d) || some_key_covers(v.allow_fst, d)
}

proof fn lemma_refused_alias(v: BlocklistView, rs: Seq<RecordView>, i: int, end: int)
    requires
        0 <= i,
    ensures
        match refused_alias(v, rs, i, end) {
            Some(t) => exists|k: int|
                i <= k < end && leads_astray(v, #[trigger] rs[k], t) && forall|j: int, u: Seq<char>|
                    i <= j < k ==> !#[trigger] leads_astray(v, rs[j], u),
            None => forall|j: int, u: Seq<char>| i <= j < end ==> !#[trigger] leads_astray(v, rs[j], u),
        },
    decreases end - i,
{
    if i < end {
        match rs[i].data {
            DataView::Cname(n) if refused(v, trim_end_char(unicode_lower(n), '.')) => {
                assert(leads_astray(v, rs[i], trim_end_char(unicode_lower(n), '.')));
            },
            _ => {
                lemma_refused_alias(v, rs, i + 1, end);
                assert forall|u: Seq<char>| !#[trigger] leads_astray(v, rs[i], u) by {}
                match refused_alias(v, rs, i + 1, end) {
                    Some(t) => {
                        let k = choose|k: int|
                            i + 1 <= k < end && leads_astray(v, #[trigger] rs[k], t) && forall|j: int, u: Seq<char>|
                                i + 1 <= j < k ==> !#[trigger] leads_astray(v, rs[j], u);
                        assert forall|j: int, u: Seq<char>| i <= j < k implies !#[trigger] leads_astray(v, rs[j], u) by {
                            if j == i {
                                assert(!leads_astray(v, rs[i], u));
                            }
                        }
                        assert(leads_astray(v, rs[k], t));
                    },
                    None => {
                        assert forall|j: int, u: Seq<char>| i <= j < end implies !#[trigger] leads_astray(v, rs[j], u) by {
                            if j == i {
                                assert(!leads_astray(v, rs[i], u));
                            }
                        }
                    },
                }
            },
        }
    }
}

/// A refused target is found in an answer exactly if the asked name is not exempt and
/// some alias anywhere among the answers points to a blocked domain; and it is the target
/// of the first such alias.
pub proof fn every_alias_is_looked_at(v: BlocklistView, bytes: Seq<u8>, name: Seq<char>, h: HeadView, rs: Seq<RecordView>)
    requires
        dns_head(bytes) == Some(h),
        dns_records(bytes) == Some(rs),
    ensures
        exempt_name(v, name) ==> refused_target(v, bytes, name) is None,
        !exempt_name(v, name) ==> match refused_target(v, bytes, name) {
            Some(t) => exists|k: int|
                0 <= k < h.answers && leads_astray(v, #[trigger] rs[k], t) && forall|j: int, u: Seq<char>|
                    0 <= j < k ==> !#[trigger] leads_astray(v, rs[j], u),
            None => forall|j: int, u: Seq<char>| 0 <= j < h.answers ==> !#[trigger] leads_astray(v, rs[j], u),
        },
{
    names_decide_without_a_profile(v, name);
    lemma_refused_alias(v, rs, 0, h.answers as int);
}

/// The answer to a query is refused because of where it leads.
pub open spec fn refuses(cx: QueryContext, v: BlocklistView, h: HeadView, rs: Seq<RecordView>, t: Seq<char>) -> bool {
    &&& cx.filtering
    &&& h.response_code == 0
    &&& !exempt_name(v, cx.query.name@)
    &&& exists|k: int|
        0 <= k < h.answers && leads_astray(v, #[trigger] rs[k], t) && forall|j: int, u: Seq<char>|
            0 <= j < k ==> !#[trigger] leads_astray(v, rs[j], u)
}

/// The message with each record's lifetime cut down to the limit: as it is where no record
/// exceeds the limit, and where it cannot be encoded again.
pub open spec fn cut_down(bytes: Seq<u8>, h: HeadView, rs: Seq<RecordView>, limit: u32, out: Seq<u8>) -> bool {
    if forall|i: int| 0 <= i < rs.len() ==> (#[trigger] rs[i]).ttl <= limit {
        out == bytes
    } else {
        exists|ttls: Seq<u32>|
            {
                &&& ttls.len() == rs.len()
                &&& forall|i: int|
                    0 <= i < rs.len() ==> #[trigger] ttls[i] == (if rs[i].ttl < limit {
                        rs[i].ttl
                    } else {
                        limit
                    })
                &&& out == (match #[trigger] dns_rewritten(bytes, h.id, ttls) {
                    Some(b) => b,
                    None => bytes,
                })
            }
    }
}

/// What a resolver answers is what the client gets, whatever its response code, unless it
/// is refused because of where it leads: the same message, but for lifetimes above the
/// limit. The log names the resolver and the code.
pub proof fn resolver_answers_reach_the_client(
    raw: Seq<u8>,
    cx: QueryContext,
    u: Upstream,
    v: BlocklistView,
    max_ttl: u64,
    h: HeadView,
    rs: Seq<RecordView>,
)
    requires
        dns_head(u.bytes@) == Some(h),
        dns_records(u.bytes@) == Some(rs),
        forall|t: Seq<char>| !refuses(cx, v, h, rs, t),
    ensures
        ({
            let o = upstream_answer(raw, cx, Some(u), v, max_ttl);
            &&& cut_down(u.bytes@, h, rs, max_ttl as u32, o.reply)
            &&& o.log == (if cx.log_ignored {
                None
            } else {
                Some(
                    LogView {
                        status: QueryStatus::Upstream,
                        upstream: Some(u.label@),
                        rcode: if h.response_code <= 255 {
                            h.response_code as u8
                        } else {
                            255
                        },
                    },
                )
            })
        }),
{
    every_alias_is_looked_at(v, u.bytes@, cx.query.name@, h, rs);
    lemma_not_refused(cx, v, u.bytes@, h, rs);
    let limit = max_ttl as u32;
    let ttls = crate::dns::handler::capped_ttls(rs, limit);
    if !(forall|i: int| 0 <= i < rs.len() ==> (#[trigger] rs[i]).ttl <= limit) {
        let i = choose|i: int| 0 <= i < rs.len() && (#[trigger] rs[i]).ttl > limit;
        assert(rs[i].ttl > limit);
        assert(crate::dns::handler::exceeds(rs, limit));
        assert forall|i: int| 0 <= i < rs.len() implies #[trigger] ttls[i] == (if rs[i].ttl < limit {
            rs[i].ttl
        } else {
            limit
        }) by {}
        assert(ttls.len() == rs.len());
        assert(capped(u.bytes@, limit) == (match dns_rewritten(u.bytes@, h.id, ttls) {
            Some(b) => b,
            None => u.bytes@,
        }));
    } else {
        assert(!crate::dns::handler::exceeds(rs, limit));
    }
}

proof fn lemma_not_refused(cx: QueryContext, v: BlocklistView, bytes: Seq<u8>, h: HeadView, rs: Seq<RecordView>)
    requires
        dns_head(bytes) == Some(h),
        dns_records(bytes) == Some(rs),
    ensures
        h.response_code == 0 && cx.filtering ==> match refused_target(v, bytes, cx.query.name@) {
            Some(t) => refuses(cx, v, h, rs, t),
            None => forall|t: Seq<char>| !refuses(cx, v, h, rs, t),
        },
{
    every_alias_is_looked_at(v, bytes, cx.query.name@, h, rs);
    if refused_target(v, bytes, cx.query.name@) is None && !exempt_name(v, cx.query.name@) {
        assert forall|t: Seq<char>| !refuses(cx, v, h, rs, t) by {
            if refuses(cx, v, h, rs, t) {
                let k = choose|k: int|
                    0 <= k < h.answers && leads_astray(v, #[trigger] rs[k], t) && forall|j: int, u: Seq<char>|
                        0 <= j < k ==> !#[trigger] leads_astray(v, rs[j], u);
                assert(!leads_astray(v, rs[k], t));
            }
        }
    }
}

/// The server's own reply: the questions of the query under its id, with this code, and no
/// records; nothing where the query cannot be read or the reply not written.
pub open spec fn own_message(raw: Seq<u8>, authoritative: bool, code: u16, out: Seq<u8>) -> bool {
    match dns_head(raw) {
        Some(q) => {
            let head = ReplyHead {
                id: q.id,
                authoritative,
                recursion_desired: q.recursion_desired,
                recursion_available: true,
                response_code: code,
            };
            match dns_reply(raw, head) {
                Some(b) => out == b,
                None => out.len() == 0,
            }
        },
        None => out.len() == 0,
    }
}

/// An answer that leads to a blocked domain is refused: the client is told that the name
/// does not exist, the log names the domain, and nothing is cached.
pub proof fn answers_that_lead_astray_are_refused(
    raw: Seq<u8>,
    cx: QueryContext,
    u: Upstream,
    v: BlocklistView,
    max_ttl: u64,
    h: HeadView,
    rs: Seq<RecordView>,
    t: Seq<char>,
)
    requires
        dns_head(u.bytes@) == Some(h),
        dns_records(u.bytes@) == Some(rs),
        refuses(cx, v, h, rs, t),
    ensures
        ({
            let o = upstream_answer(raw, cx, Some(u), v, max_ttl);
            &&& own_message(raw, true, 3, o.reply)
            &&& o.log == (if cx.log_ignored {
                None
            } else {
                Some(LogView { status: QueryStatus::Blocked, upstream: Some("cname:"@ + t), rcode: 3 })
            })
        }),
        upstream_entry(raw, cx, Some(u), v) is None,
{
    lemma_not_refused(cx, v, u.bytes@, h, rs);
    every_alias_is_looked_at(v, u.bytes@, cx.query.name@, h, rs);
    let k = choose|k: int|
        0 <= k < h.answers && leads_astray(v, #[trigger] rs[k], t) && forall|j: int, w: Seq<char>|
            0 <= j < k ==> !#[trigger] leads_astray(v, rs[j], w);
    match refused_target(v, u.bytes@, cx.query.name@) {
        Some(s) => {
            let l = choose|l: int|
                0 <= l < h.answers && leads_astray(v, #[trigger] rs[l], s) && forall|j: int, w: Seq<char>|
                    0 <= j < l ==> !#[trigger] leads_astray(v, rs[j], w);
            if k < l {
                assert(!leads_astray(v, rs[k], t));
            }
            if l < k {
                assert(!leads_astray(v, rs[l], s));
            }
            assert(s == t);
        },
        None => {},
    }
}

/// Where no resolver answers, or what it sends is no message, the client is told that
/// resolving failed. That is logged without a resolver, and nothing is cached.
pub proof fn failures_are_reported(
    raw: Seq<u8>,
    cx: QueryContext,
    upstream: Option<Upstream>,
    v: BlocklistView,
    max_ttl: u64,
)
    requires
        upstream matches Some(u) ==> dns_head(u.bytes@) is None,
    ensures
        ({
            let o = upstream_answer(raw, cx, upstream, v, max_ttl);
            &&& exists|b: Seq<u8>| #[trigger] own_message(raw, false, 2, b) && o.reply == capped(b, max_ttl as u32)
            &&& o.log == (if cx.log_ignored {
                None
            } else {
                Some(LogView { status: QueryStatus::Upstream, upstream: None, rcode: 2 })
            })
        }),
        upstream_entry(raw, cx, upstream, v) is None,
{
    assert(own_message(raw, false, 2, servfail(raw)));
}

proof fn lemma_least(rs: Seq<RecordView>, n: nat)
    requires
        n <= rs.len(),
    ensures
        forall|i: int| 0 <= i < n ==> least_ttl(rs, n) <= (#[trigger] rs[i]).ttl,
        n > 0 ==> exists|i: int| 0 <= i < n && (#[trigger] rs[i]).ttl == least_ttl(rs, n),
    decreases n,
{
    if n > 0 {
        lemma_least(rs, (n - 1) as nat);
        let m = least_ttl(rs, (n - 1) as nat);
        if rs[n - 1].ttl < m {
            assert(rs[n - 1].ttl == least_ttl(rs, n));
        } else if n > 1 {
            let i = choose|i: int| 0 <= i < n - 1 && (#[trigger] rs[i]).ttl == m;
            assert(rs[i].ttl == least_ttl(rs, n));
        } else {
            assert(rs[0].ttl == u32::MAX);
        }
    }
}

proof fn lemma_negative(rs: Seq<RecordView>, i: int, end: int)
    ensures
        match negative_ttl(rs, i, end) {
            Some(t) => exists|k: int|
                i <= k < end && (#[trigger] rs[k]).data is Soa && t == (if rs[k].ttl < rs[k].data->Soa_0 {
                    rs[k].ttl
                } else {
                    rs[k].data->Soa_0
                }) && forall|j: int| i <= j < k ==> !((#[trigger] rs[j]).data is Soa),
            None => forall|j: int| i <= j < end ==> !((#[trigger] rs[j]).data is Soa),
        },
    decreases end - i,
{
    if i < end {
        if rs[i].data is Soa {
            assert(rs[i].data is Soa);
        } else {
            lemma_negative(rs, i + 1, end);
            match negative_ttl(rs, i + 1, end) {
                Some(t) => {
                    let k = choose|k: int|
                        i + 1 <= k < end && (#[trigger] rs[k]).data is Soa && t == (if rs[k].ttl < rs[k].data->Soa_0 {
                            rs[k].ttl
                        } else {
                            rs[k].data->Soa_0
                        }) && forall|j: int| i + 1 <= j < k ==> !((#[trigger] rs[j]).data is Soa);
                    assert(rs[k].data is Soa);
                },
                None => {},
            }
        }
    }
}

/// A successful answer that is not refused is cached as the resolver sent it: with answers
/// for the least of their lifetimes, and without for as long as the first start of
/// authority among the authorities allows. A lifetime of zero is not cached.
pub proof fn clean_answers_are_cached(
    raw: Seq<u8>,
    cx: QueryContext,
    u: Upstream,
    v: BlocklistView,
    h: HeadView,
    rs: Seq<RecordView>,
)
    requires
        dns_head(u.bytes@) == Some(h),
        dns_records(u.bytes@) == Some(rs),
        h.answers + h.authorities <= rs.len(),
        u.bytes@.len() > 0,
        h.response_code == 0,
        forall|t: Seq<char>| !refuses(cx, v, h, rs, t),
    ensures
        match upstream_entry(raw, cx, Some(u), v) {
            Some((bytes, ttl)) => {
                &&& bytes == u.bytes@
                &&& ttl > 0
                &&& h.answers > 0 ==> (forall|i: int| 0 <= i < h.answers ==> ttl <= (#[trigger] rs[i]).ttl) && (exists|
                    i: int,
                | 0 <= i < h.answers && (#[trigger] rs[i]).ttl == ttl)
                &&& h.answers == 0 ==> exists|k: int|
                    0 <= k < h.authorities && (#[trigger] rs[k]).data is Soa && ttl == (if rs[k].ttl
                        < rs[k].data->Soa_0 {
                        rs[k].ttl
                    } else {
                        rs[k].data->Soa_0
                    }) && forall|j: int| 0 <= j < k ==> !((#[trigger] rs[j]).data is Soa)
            },
            None => {
                &&& h.answers > 0 ==> exists|i: int| 0 <= i < h.answers && (#[trigger] rs[i]).ttl == 0
                &&& h.answers == 0 ==> forall|k: int|
                    0 <= k < h.authorities && (#[trigger] rs[k]).data is Soa && (forall|j: int|
                        0 <= j < k ==> !((#[trigger] rs[j]).data is Soa)) ==> rs[k].ttl == 0 || rs[k].data->Soa_0 == 0
            },
        },
{
    lemma_not_refused(cx, v, u.bytes@, h, rs);
    lemma_least(rs, h.answers);
    lemma_negative(rs, 0, h.authorities as int);
    if h.answers == 0 {
        match negative_ttl(rs, 0, h.authorities as int) {
            Some(t) => {
                let k = choose|k: int|
                    0 <= k < h.authorities && (#[trigger] rs[k]).data is Soa && t == (if rs[k].ttl
                        < rs[k].data->Soa_0 {
                        rs[k].ttl
                    } else {
                        rs[k].data->Soa_0
                    }) && forall|j: int| 0 <= j < k ==> !((#[trigger] rs[j]).data is Soa);
                assert forall|l: int|
                    0 <= l < h.authorities && (#[trigger] rs[l]).data is Soa && (forall|j: int|
                        0 <= j < l ==> !((#[trigger] rs[j]).data is Soa)) implies l == k by {
                    if l < k {
                        assert(!(rs[l].data is Soa));
                    }
                    if k < l {
                        assert(!(rs[k].data is Soa));
                    }
                }
            },
            None => {},
        }
    }
}

/// The bytes with the id in front: all but the first two stay.
pub open spec fn under_id(bytes: Seq<u8>, id: u16, out: Seq<u8>) -> bool {
    &&& out.len() == bytes.len()
    &&& forall|i: int| 2 <= i < bytes.len() ==> #[trigger] out[i] == bytes[i]
    &&& bytes.len() >= 2 ==> out[0] * 256 + out[1] == id
    &&& bytes.len() < 2 ==> out == bytes
}

proof fn lemma_with_id(bytes: Seq<u8>, id: u16)
    ensures
        under_id(bytes, id, with_id(bytes, id)),
{
    if bytes.len() >= 2 {
        let out = with_id(bytes, id);
        assert(out[0] == (id / 256) as u8 && out[1] == (id % 256) as u8);
        assert(id / 256 <= 255);
    }
}

/// A local record answers its query under the query's id, and so does a redirection where
/// there is no local record; both are logged as allowed, with where they come from. This
/// holds whatever is blocked and whatever is cached.
pub proof fn local_records_and_redirections_are_handed_out(
    raw: Seq<u8>,
    cx: QueryContext,
    custom: Option<DnsResponse>,
    intercept: Option<Intercept>,
    v: BlocklistView,
    entries: Seq<Entry>,
    now: u64,
)
    requires
        custom is Some || intercept is Some,
    ensures
        match local_answer(raw, cx, custom, intercept, v, entries, now) {
            Some(o) => {
                &&& custom matches Some(c) ==> under_id(c.bytes@, cx.query.id, o.reply)
                &&& custom is None ==> under_id(intercept->0.response.bytes@, cx.query.id, o.reply)
                &&& o.log == (if cx.log_ignored {
                    None
                } else {
                    Some(
                        LogView {
                            status: QueryStatus::Allowed,
                            upstream: Some(
                                if custom is Some {
                                    "custom"@
                                } else {
                                    "proxy:"@ + intercept->0.egress_id@
                                },
                            ),
                            rcode: 0,
                        },
                    )
                })
            },
            None => false,
        },
{
    match custom {
        Some(c) => {
            lemma_with_id(c.bytes@, cx.query.id);
        },
        None => {
            lemma_with_id(intercept->0.response.bytes@, cx.query.id);
        },
    }
}

/// A blocked name is refused to a client that block rules apply to, and to no other:
/// the client is told that the name does not exist, and that is logged.
pub proof fn blocked_names_are_refused(
    raw: Seq<u8>,
    cx: QueryContext,
    v: BlocklistView,
    entries: Seq<Entry>,
    now: u64,
)
    requires
        cx.filtering,
        should_block(v, cx.query.name@, None),
    ensures
        match local_answer(raw, cx, None, None, v, entries, now) {
            Some(o) => {
                &&& own_message(raw, true, 3, o.reply)
                &&& o.log == (if cx.log_ignored {
                    None
                } else {
                    Some(LogView { status: QueryStatus::Blocked, upstream: None, rcode: 3 })
                })
            },
            None => false,
        },
{
    names_decide_without_a_profile(v, cx.query.name@);
}

/// The entry for a question: under its name in lower case and its type, and not expired.
pub open spec fn answers_question(e: Entry, name: Seq<char>, qtype: u16, now: u64) -> bool {
    e.key == lower(name) + seq!['/'] + decimal(qtype as nat) && now < e.expires_at
}

/// A query that is neither answered by a local record, nor redirected, nor refused is
/// answered from the cache exactly if there is an entry for its question that has not
/// expired. The cached message is handed out under the query's id, each of its records for
/// as long as the entry stays, unless it leads to a blocked domain.
pub proof fn cached_answers_are_handed_out(
    raw: Seq<u8>,
    cx: QueryContext,
    v: BlocklistView,
    entries: Seq<Entry>,
    now: u64,
    k: int,
)
    requires
        !cx.filtering || !should_block(v, cx.query.name@, None),
        forall|i: int, j: int| 0 <= i < j < entries.len() ==> (#[trigger] entries[i]).key != (#[trigger] entries[j]).key,
    ensures
        local_answer(raw, cx, None, None, v, entries, now) is Some <==> exists|i: int|
            0 <= i < entries.len() && answers_question(#[trigger] entries[i], cx.query.name@, cx.query.qtype, now),
        0 <= k < entries.len() && answers_question(entries[k], cx.query.name@, cx.query.qtype, now) ==> ({
            let e = entries[k];
            let o = local_answer(raw, cx, None, None, v, entries, now)->0;
            let secs = (e.expires_at - now) / 1_000_000_000;
            match (dns_head(e.data), dns_records(e.data)) {
                (Some(h), Some(rs)) => {
                    if cx.filtering && !exempt_name(v, cx.query.name@) && exists|j: int, t: Seq<char>|
                        0 <= j < h.answers && #[trigger] leads_astray(v, rs[j], t) {
                        &&& own_message(raw, true, 3, o.reply)
                        &&& !cx.log_ignored ==> (o.log is Some && o.log->0.status == QueryStatus::Blocked && o.log->0.rcode == 3
                            && exists|j: int, t: Seq<char>|
                            0 <= j < h.answers && #[trigger] leads_astray(v, rs[j], t) && o.log->0.upstream == Some(
                                "cname:"@ + t,
                            ))
                    } else {
                        &&& secs <= u32::MAX ==> exists|ttls: Seq<u32>|
                            {
                                &&& ttls.len() == rs.len()
                                &&& forall|i: int| 0 <= i < ttls.len() ==> #[trigger] ttls[i] == secs
                                &&& match #[trigger] dns_rewritten(e.data, cx.query.id, ttls) {
                                    Some(b) => o.reply == b,
                                    None => under_id(e.data, cx.query.id, o.reply),
                                }
                            }
                        &&& !cx.log_ignored ==> o.log == Some(
                            LogView { status: QueryStatus::Cached, upstream: None, rcode: 0 },
                        )
                    }
                },
                (None, None) => under_id(e.data, cx.query.id, o.reply) && (!cx.log_ignored ==> o.log == Some(
                    LogView { status: QueryStatus::Cached, upstream: None, rcode: 0 },
                )),
                _ => true,
            }
        }),
{
    let key = question_key(cx.query.name@, cx.query.qtype);
    names_decide_without_a_profile(v, cx.query.name@);
    if has_key(entries, key) {
        let m = key_index(entries, key);
        assert(0 <= m < entries.len() && entries[m].key == key);
        assert forall|i: int| 0 <= i < entries.len() && (#[trigger] entries[i]).key == key implies i == m by {
            if i < m {
                assert(entries[i].key != entries[m].key);
            }
            if m < i {
                assert(entries[m].key != entries[i].key);
            }
        }
        if now < entries[m].expires_at {
            assert(answers_question(entries[m], cx.query.name@, cx.query.qtype, now));
        }
    }
    if 0 <= k < entries.len() && answers_question(entries[k], cx.query.name@, cx.query.qtype, now) {
        let e = entries[k];
        assert(e.key == key);
        assert(has_key(entries, key));
        assert(cached_entry(entries, cx.query, now) == Some(e));
        lemma_with_id(e.data, cx.query.id);
        match (dns_head(e.data), dns_records(e.data)) {
            (Some(h), Some(rs)) => {
                every_alias_is_looked_at(v, e.data, cx.query.name@, h, rs);
                match refused_target(v, e.data, cx.query.name@) {
                    Some(t) => {
                        let l = choose|l: int|
                            0 <= l < h.answers && leads_astray(v, #[trigger] rs[l], t) && forall|j: int, w: Seq<char>|
                                0 <= j < l ==> !#[trigger] leads_astray(v, rs[j], w);
                        assert(leads_astray(v, rs[l], t));
                    },
                    None => {},
                }
                let secs = (e.expires_at - now) / 1_000_000_000;
                if secs <= u32::MAX {
                    let ttls = Seq::new(rs.len(), |i: int| secs as u32);
                    assert(ttls.len() == rs.len());
                    assert(crate::dns::cache::remaining_secs(e.expires_at, now) == secs as u32);
                    assert(cached_reply(e.data, cx.query.id, secs as u32) == (match dns_rewritten(
                        e.data,
                        cx.query.id,
                        ttls,
                    ) {
                        Some(b) => b,
                        None => with_id(e.data, cx.query.id),
                    }));
                    assert(forall|i: int| 0 <= i < ttls.len() ==> #[trigger] ttls[i] == secs);
                }
            },
            _ => {},
        }
    }
}

/// A received message is opened by what it is: bytes that are no message are dropped, a
/// message that is no standard query or asks nothing is answered with a failure, and any
/// other is a query for its first question, by its sender.
pub proof fn messages_are_opened_by_what_they_are(raw: Seq<u8>, src: crate::ip::IpAddr, r: Opening)
    requires
        opens(raw, src, r),
    ensures
        dns_head(raw) is None <==> r is Silent,
        dns_head(raw) matches Some(h) ==> {
            &&& (h.op_code == 0 && h.questions.len() > 0) <==> r is Query
            &&& (h.op_code != 0 || h.questions.len() == 0) ==> r is Reply && own_message(raw, false, 2, r->Reply_0@)
            &&& r matches Opening::Query(q) ==> {
                &&& q.id == h.id
                &&& q.qtype == h.questions[0].qtype
                &&& q.name@.is_prefix_of(h.questions[0].name)
                &&& q.name@.len() > 0 ==> q.name@.last() != '.'
                &&& forall|i: int| q.name@.len() <= i < h.questions[0].name.len() ==> #[trigger] h.questions[0].name[i] == '.'
            }
        },
{
    if let Some(h) = dns_head(raw) {
        if h.questions.len() > 0 {
            lemma_trim_end_char(h.questions[0].name, '.');
        }
    }
}

/// What is left of a text without the characters at its end is its longest start that
/// ends otherwise.
pub proof fn lemma_trim_end_char(s: Seq<char>, c: char)
    ensures
        trim_end_char(s, c).is_prefix_of(s),
        trim_end_char(s, c).len() > 0 ==> trim_end_char(s, c).last() != c,
        forall|i: int| trim_end_char(s, c).len() <= i < s.len() ==> #[trigger] s[i] == c,
    decreases s.len(),
{
    if s.len() > 0 && s.last() == c {
        let t = s.drop_last();
        lemma_trim_end_char(t, c);
        assert(trim_end_char(t, c).is_prefix_of(s)) by {
            assert(s.subrange(0, trim_end_char(t, c).len() as int) =~= t.subrange(0, trim_end_char(t, c).len() as int));
        }
        assert forall|i: int| trim_end_char(s, c).len() <= i < s.len() implies #[trigger] s[i] == c by {
            if i < t.len() {
                assert(t[i] == c);
            }
        }
    } else {
        assert(s.subrange(0, s.len() as int) =~= s);
    }
}

/// Block rules apply to a client exactly if blocking is on and no configured entry, in
/// canonical form, is the client's address or hardware address.
pub proof fn bypassing_clients_are_not_filtered(
    v: BlocklistView,
    entries: Seq<String>,
    ip: Seq<char>,
    mac: Option<Seq<char>>,
)
    requires
        v.client_bypass == client_keys(texts(entries)).to_set(),
    ensures
        filtered(v, ip, mac) <==> v.enabled && forall|i: int|
            0 <= i < entries.len() ==> client_key((#[trigger] entries[i])@) != Some(ip) && (mac is Some
                ==> client_key(entries[i]@) != mac),
{
    let tv = texts(entries);
    let f = |e: Seq<char>|
        match client_key(e) {
            Some(k) => seq![k],
            None => seq![],
        };
    assert(client_keys(tv) == flat_map(tv, f));
    crate::blocklist::decision_laws::lemma_flat_map_contains(tv, f, ip);
    if mac is Some {
        crate::blocklist::decision_laws::lemma_flat_map_contains(tv, f, mac->0);
    }
    assert forall|i: int, k: Seq<char>| 0 <= i < tv.len() implies (#[trigger] f(tv[i]).contains(k) <==> client_key(
        entries[i]@,
    ) == Some(k)) by {
        assert(tv[i] == entries[i]@);
        if client_key(entries[i]@) == Some(k) {
            assert(f(tv[i])[0] == k);
        }
    }
    if v.client_bypass.contains(ip) {
        let i = choose|i: int| 0 <= i < tv.len() && f(#[trigger] tv[i]).contains(ip);
        assert(client_key(entries[i]@) == Some(ip));
    }
    if mac is Some && v.client_bypass.contains(mac->0) {
        let i = choose|i: int| 0 <= i < tv.len() && f(#[trigger] tv[i]).contains(mac->0);
        assert(client_key(entries[i]@) == mac);
    }
    assert forall|i: int| 0 <= i < entries.len() implies (client_key((#[trigger] entries[i])@) == Some(ip)
        ==> v.client_bypass.contains(ip)) && (mac is Some && client_key(entries[i]@) == mac ==> v.client_bypass.contains(
        mac->0,
    )) by {
        if client_key(entries[i]@) == Some(ip) {
            assert(f(tv[i]).contains(ip));
        }
        if mac is Some && client_key(entries[i]@) == mac {
            assert(f(tv[i]).contains(mac->0));
        }
    }
}

/// A name is kept out of the log exactly if it is one of the patterns, or a pattern is
/// `*.` before the name or before what follows one of its dots.
pub proof fn log_patterns_stand_for_names(name: Seq<char>, patterns: Seq<Seq<char>>)
    ensures
        ignored(name, patterns) <==> exists|i: int|
            0 <= i < patterns.len() && keeps_out(#[trigger] patterns[i], name),
{
    assert forall|p: Seq<char>| #[trigger] keeps_out(p, name) == ignored_by(name, p) by {
        reveal_strlit("*.");
        if p.len() >= 2 {
            let head = p.subrange(0, 2);
            assert(head[0] == p[0] && head[1] == p[1]);
            if p[0] == '*' && p[1] == '.' {
                assert(head =~= "*."@);
            }
            crate::blocklist::decision_laws::lemma_ends_in(name, p.skip(2));
        }
    }
    if ignored(name, patterns) {
        let i = choose|i: int| 0 <= i < patterns.len() && ignored_by(name, #[trigger] patterns[i]);
        assert(keeps_out(patterns[i], name));
    }
    if exists|i: int| 0 <= i < patterns.len() && keeps_out(#[trigger] patterns[i], name) {
        let i = choose|i: int| 0 <= i < patterns.len() && keeps_out(#[trigger] patterns[i], name);
        assert(ignored_by(name, patterns[i]));
    }
}

/// The pattern keeps the name out of the log.
pub open spec fn keeps_out(p: Seq<char>, name: Seq<char>) -> bool {
    if p.len() >= 2 && p[0] == '*' && p[1] == '.' {
        ends_in(name, p.skip(2))
    } else {
        p == name
    }
}

/// Configured lifetimes are brought between one minute and one hour, the upper not below
/// the lower; those that are there already, and in order, stay.
pub proof fn lifetimes_are_kept_in_range(min_ttl: u64, max_ttl: u64)
    ensures
        ({
            let b = normal_bounds(min_ttl, max_ttl);
            &&& 60 <= b.min_secs <= b.max_secs <= 3600
            &&& 60 <= min_ttl <= 3600 ==> b.min_secs == min_ttl
            &&& min_ttl < 60 ==> b.min_secs == 60
            &&& min_ttl > 3600 ==> b.min_secs == 3600
            &&& b.min_secs <= max_ttl <= 3600 ==> b.max_secs == max_ttl
            &&& max_ttl > 3600 ==> b.max_secs == 3600
            &&& max_ttl < b.min_secs ==> b.max_secs == b.min_secs
        }),
{
}

/// A response is stored as it came, and stays for its own lifetime, brought within the
/// bounds; one that is put back after a restart stays until the same moment as before.
pub proof fn stored_responses_keep_their_time(
    key: Seq<char>,
    response: DnsResponse,
    bounds: TtlBounds,
    now: u64,
    saved: (String, Vec<u8>, u32, i64),
    now_unix: i64,
)
    requires
        bounds.min_secs <= bounds.max_secs <= 3600,
        now <= 1_000_000_000_000_000_000,
        now_unix < saved.3 <= now_unix + 3600,
    ensures
        ({
            let e = response_entry(key, response, bounds, now);
            let secs = (e.expires_at - now) / 1_000_000_000;
            &&& e.key == key && e.data == response.bytes@ && e.number == response.ttl
            &&& (e.expires_at - now) % 1_000_000_000 == 0
            &&& bounds.min_secs <= response.ttl <= bounds.max_secs ==> secs == response.ttl
            &&& response.ttl < bounds.min_secs ==> secs == bounds.min_secs
            &&& response.ttl > bounds.max_secs ==> secs == bounds.max_secs
        }),
        ({
            let e = saved_entry(saved, now, now_unix);
            &&& e.key == saved.0@ && e.data == saved.1@ && e.number == saved.2
            &&& e.expires_at == now + (saved.3 - now_unix) * 1_000_000_000
        }),
{
}

}
