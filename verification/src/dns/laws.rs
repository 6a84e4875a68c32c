//! What holds of the handling of queries as a whole.
use vstd::prelude::*;
use vstd::string::*;

use crate::blocklist::engine::{whitelisted_for, BlocklistView};
use crate::dns::cache::{
    about, clamped, found_at, question_key, remaining_secs, response_entry, unexpired, TtlBounds,
};
use crate::dns::handler::{
    local_answer, nxdomain, outcome, refused, refused_target, upstream_answer, upstream_entry, with_id, Intercept,
    OutcomeView, QueryContext, Upstream,
};
use crate::dns::message::dns_head;
use crate::dns::types::{DnsResponse, QueryStatus};
use crate::lru_cache;
use crate::lru_cache::{after_put, has_key, key_index, later, without_key, Entry};
use crate::text;
use crate::text::{decimal, lower};

verus! {

/// A local record is the answer to its query, whatever the block rules say and
/// whatever is cached.
pub proof fn local_record_beats_block_rules(
    raw: Seq<u8>,
    cx: QueryContext,
    record: DnsResponse,
    intercept: Option<Intercept>,
    v: BlocklistView,
    entries: Seq<Entry>,
    now: u64,
)
    ensures
        local_answer(raw, cx, Some(record), intercept, v, entries, now) == Some(
            outcome(with_id(record.bytes@, cx.query.id), cx.log_ignored, QueryStatus::Allowed, Some("custom"@), 0),
        ),
{
}

/// A redirected query is never refused.
pub proof fn redirection_beats_block_rules(
    raw: Seq<u8>,
    cx: QueryContext,
    intercept: Intercept,
    v: BlocklistView,
    entries: Seq<Entry>,
    now: u64,
)
    ensures
        local_answer(raw, cx, None, Some(intercept), v, entries, now) == Some(
            outcome(
                with_id(intercept.response.bytes@, cx.query.id),
                cx.log_ignored,
                QueryStatus::Allowed,
                Some("proxy:"@ + intercept.egress_id@),
                0,
            ),
        ),
{
}

/// A blocked name is refused to a client that block rules apply to, also where a
/// response for it is cached.
pub proof fn block_rules_beat_the_cache(
    raw: Seq<u8>,
    cx: QueryContext,
    v: BlocklistView,
    entries: Seq<Entry>,
    now: u64,
)
    requires
        cx.filtering,
        refused(v, cx.query.name@),
    ensures
        local_answer(raw, cx, None, None, v, entries, now) == Some(
            outcome(nxdomain(raw), cx.log_ignored, QueryStatus::Blocked, None, 3),
        ),
{
}

/// The outcome is logged as a refusal.
pub open spec fn logged_as_blocked(o: OutcomeView) -> bool {
    match o.log {
        Some(l) => l.status == QueryStatus::Blocked,
        None => false,
    }
}

/// A client that block rules do not apply to is refused nothing.
pub proof fn unfiltered_clients_are_refused_nothing(
    raw: Seq<u8>,
    cx: QueryContext,
    custom: Option<DnsResponse>,
    intercept: Option<Intercept>,
    upstream: Option<Upstream>,
    v: BlocklistView,
    entries: Seq<Entry>,
    now: u64,
    max_ttl: u64,
)
    requires
        !cx.filtering,
    ensures
        match local_answer(raw, cx, custom, intercept, v, entries, now) {
            Some(o) => !logged_as_blocked(o),
            None => true,
        },
        !logged_as_blocked(upstream_answer(raw, cx, upstream, v, max_ttl)),
{
}

/// An exempt name is never refused, whatever its answer leads to.
pub proof fn exempt_names_are_never_refused(
    raw: Seq<u8>,
    cx: QueryContext,
    custom: Option<DnsResponse>,
    intercept: Option<Intercept>,
    upstream: Option<Upstream>,
    v: BlocklistView,
    entries: Seq<Entry>,
    now: u64,
    max_ttl: u64,
)
    requires
        whitelisted_for(v, cx.query.name@, None),
    ensures
        match local_answer(raw, cx, custom, intercept, v, entries, now) {
            Some(o) => !logged_as_blocked(o),
            None => true,
        },
        !logged_as_blocked(upstream_answer(raw, cx, upstream, v, max_ttl)),
{
}

/// Only successful answers that resolvers sent, and that lead to no blocked name,
/// are cached.
pub proof fn only_clean_answers_are_cached(raw: Seq<u8>, cx: QueryContext, upstream: Option<Upstream>, v: BlocklistView)
    ensures
        match upstream_entry(raw, cx, upstream, v) {
            Some((bytes, ttl)) => {
                &&& upstream is Some
                &&& bytes == upstream->0.bytes@
                &&& dns_head(bytes) is Some
                &&& dns_head(bytes)->0.response_code == 0
                &&& cx.filtering ==> refused_target(v, bytes, cx.query.name@) is None
                &&& ttl > 0
            },
            None => true,
        },
{
}

/// A response that was stored is found again until it expires.
pub proof fn stored_responses_are_found(
    entries: Seq<Entry>,
    capacity: nat,
    name: Seq<char>,
    qtype: u16,
    response: DnsResponse,
    bounds: TtlBounds,
    stored: u64,
    now: u64,
)
    requires
        capacity > 0,
    ensures
        ({
            let key = question_key(name, qtype);
            let after = after_put(entries, capacity, response_entry(key, response, bounds, stored));
            now < later(stored, clamped(response.ttl as u64, bounds.min_secs, bounds.max_secs)) ==> found_at(
                after,
                key,
                now,
                Some(response),
            )
        }),
{
    let key = question_key(name, qtype);
    let e = response_entry(key, response, bounds, stored);
    let after = after_put(entries, capacity, e);
    assert(after[0] == e);
    assert(has_key(after, key));
    let i = key_index(after, key);
    assert(after[i].key == key);
    if i > 0 {
        let rest = without_key(entries, key);
        let f = |x: Entry| x.key != key;
        assert(after[i] == rest[i - 1]);
        assert(rest.contains(rest[i - 1]));
        entries.lemma_filter_contains_rev(f, rest[i - 1]);
    }
}

/// After the responses about a name were removed, nothing is found for it, whatever
/// the type of the question.
pub proof fn removed_names_are_not_found(
    entries: Seq<Entry>,
    name: Seq<char>,
    qtype: u16,
    now: u64,
    r: Option<DnsResponse>,
)
    requires
        found_at(entries.filter(|e: Entry| !about(e.key, name)), question_key(name, qtype), now, r),
    ensures
        r is None,
{
    let f = |e: Entry| !about(e.key, name);
    let kept = entries.filter(f);
    let key = question_key(name, qtype);
    if has_key(kept, key) {
        let i = choose|i: int| 0 <= i < kept.len() && (#[trigger] kept[i]).key == key;
        assert(kept.contains(kept[i]));
        entries.lemma_filter_contains_rev(f, kept[i]);
        let prefix = lower(name) + seq!['/'];
        assert(key =~= prefix + decimal(qtype as nat));
        assert(prefix.is_prefix_of(key)) by {
            assert(key.subrange(0, prefix.len() as int) =~= prefix);
        }
    }
}

/// Removing the responses about one name leaves every other name's responses: no
/// key of another name without a slash is affected.
pub proof fn other_names_stay(entries: Seq<Entry>, name: Seq<char>, other: Seq<char>, qtype: u16)
    requires
        lower(name) != lower(other),
        !name.contains('/'),
        !other.contains('/'),
    ensures
        !about(question_key(other, qtype), name),
{
    let p = lower(name) + seq!['/'];
    let key = question_key(other, qtype);
    let a = lower(name);
    let b = lower(other);
    if p.is_prefix_of(key) {
        assert(key[a.len() as int] == p[a.len() as int]);
        if a.len() < b.len() {
            assert(key[a.len() as int] == b[a.len() as int]);
            assert(other[a.len() as int] == '/');
            assert(other.contains('/'));
        } else if a.len() > b.len() {
            assert(key[b.len() as int] == '/');
            assert(p[b.len() as int] == key[b.len() as int]);
            assert(a[b.len() as int] == '/');
            assert(name[b.len() as int] == '/');
            assert(name.contains('/'));
        } else {
            assert(a =~= b) by {
                assert forall|i: int| 0 <= i < a.len() implies a[i] == b[i] by {
                    assert(p[i] == key[i]);
                }
            }
        }
    }
}

/// What is left after expired responses were removed has not expired.
pub proof fn nothing_expired_stays(entries: Seq<Entry>, now: u64, i: int)
    requires
        0 <= i < unexpired(entries, now).len(),
    ensures
        now < unexpired(entries, now)[i].expires_at,
{
    let f = |e: Entry| now < e.expires_at;
    let kept = unexpired(entries, now);
    assert(kept.contains(kept[i]));
    entries.lemma_filter_contains_rev(f, kept[i]);
}

/// No cached response is handed out with a longer lifetime than the bounds permit.
pub proof fn cached_lifetimes_are_bounded(key: Seq<char>, response: DnsResponse, bounds: TtlBounds, stored: u64, now: u64)
    requires
        bounds.min_secs <= bounds.max_secs,
        stored <= now,
    ensures
        ({
            let e = response_entry(key, response, bounds, stored);
            now < e.expires_at ==> remaining_secs(e.expires_at, now) <= bounds.max_secs
        }),
{
}

}
