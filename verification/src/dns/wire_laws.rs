//! How messages are cut, framed and told apart on the wire.
use vstd::prelude::*;

use crate::dns::cache::{about, found_remaining_at, hands_out, question_key, restored, CacheEntry, DnsCache};
use crate::dns::handler::{answer_entry, QueryContext};
use crate::dns::message::dns_head;
use crate::dns::server::{accepted_payload, overload_failure, truncated};
use crate::dns::types::{be16, name_end, question_section_end, questions_end, DnsResponse};
use crate::lru_cache::{after_put, has_key, key_index, Entry};
use crate::text;
use crate::text::{decimal, lower};

verus! {

/// The places at which the labels of a name start, from the first to the zero behind the
/// last. A label has from 1 to 63 bytes.
pub open spec fn labels(msg: Seq<u8>, starts: Seq<int>) -> bool {
    &&& starts.len() > 0
    &&& 0 <= starts.last() < msg.len()
    &&& msg[starts.last()] == 0
    &&& forall|k: int|
        0 <= k < starts.len() - 1 ==> 0 <= #[trigger] starts[k] < msg.len() && 1 <= msg[starts[k]] <= 63 && starts[k + 1]
            == starts[k] + 1 + msg[starts[k]] && starts[k + 1] <= msg.len()
}

/// A name ends behind the zero that follows its labels.
pub proof fn names_end_behind_their_labels(msg: Seq<u8>, starts: Seq<int>)
    requires
        labels(msg, starts),
    ensures
        name_end(msg, starts[0]) == Some(starts.last() + 1),
    decreases starts.len(),
{
    if starts.len() > 1 {
        let t = starts.skip(1);
        assert(starts[1] == starts[0] + 1 + msg[starts[0]]);
        assert forall|k: int| 0 <= k < t.len() - 1 implies 0 <= #[trigger] t[k] < msg.len() && 1 <= msg[t[k]] <= 63 && t[k
            + 1] == t[k] + 1 + msg[t[k]] && t[k + 1] <= msg.len() by {
            assert(t[k] == starts[k + 1]);
            assert(t[k + 1] == starts[k + 1 + 1]);
        }
        assert(t.last() == starts.last());
        names_end_behind_their_labels(msg, t);
    }
}

/// A name with no end: it runs out of the message, or points elsewhere.
pub proof fn names_without_an_end(msg: Seq<u8>, i: int)
    ensures
        i >= msg.len() ==> name_end(msg, i) is None,
        0 <= i < msg.len() && msg[i] >= 64 ==> name_end(msg, i) is None,
        0 <= i < msg.len() && 1 <= msg[i] <= 63 ==> name_end(msg, i) == name_end(msg, i + 1 + msg[i]),
        name_end(msg, i) matches Some(e) ==> i < e <= msg.len() && msg[e - 1] == 0,
    decreases msg.len() - i,
{
    if 0 <= i < msg.len() && 1 <= msg[i] <= 63 && i + 1 + msg[i] <= msg.len() {
        names_without_an_end(msg, i + 1 + msg[i]);
    }
}

/// The question section holds as many questions as the header says, each a name and four
/// bytes.
pub proof fn question_sections_hold_their_questions(msg: Seq<u8>, ends: Seq<int>)
    requires
        ends.len() > 0,
        forall|k: int|
            0 <= k < ends.len() - 1 ==> name_end(msg, #[trigger] ends[k]) is Some && ends[k + 1] == name_end(msg, ends[k])->0
                + 4 && ends[k + 1] <= msg.len(),
    ensures
        questions_end(msg, ends[0], ends.len() - 1) == Some(ends.last()),
        msg.len() >= 12 && ends[0] == 12 && be16(msg, 4) == ends.len() - 1 && ends.len() > 1 ==> question_section_end(msg)
            == Some(ends.last()),
    decreases ends.len(),
{
    if ends.len() > 1 {
        let t = ends.skip(1);
        assert forall|k: int| 0 <= k < t.len() - 1 implies name_end(msg, #[trigger] t[k]) is Some && t[k + 1] == name_end(
            msg,
            t[k],
        )->0 + 4 && t[k + 1] <= msg.len() by {
            assert(t[k] == ends[k + 1]);
            assert(t[k + 1] == ends[k + 1 + 1]);
        }
        assert(t.last() == ends.last());
        assert(ends[1] == name_end(msg, ends[0])->0 + 4);
        question_sections_hold_their_questions(msg, t);
    }
}

/// A response that is cut keeps its identifier, its flags and its questions, says that it
/// was cut, and holds no records. Where its questions cannot be told it holds none.
pub proof fn cut_responses_keep_their_questions(resp: Seq<u8>)
    requires
        resp.len() >= 12,
    ensures
        ({
            let r = truncated(resp);
            &&& r.len() >= 12
            &&& r[0] == resp[0] && r[1] == resp[1] && r[3] == resp[3]
            &&& r[2] == resp[2] | 2u8
            &&& forall|i: int| 6 <= i < 12 ==> #[trigger] r[i] == 0
            &&& match question_section_end(resp) {
                Some(end) => 12 <= end <= resp.len() ==> r.len() == end && r[4] == resp[4] && r[5] == resp[5] && forall|i: int|
                    12 <= i < end ==> #[trigger] r[i] == resp[i],
                None => r.len() == 12 && r[4] == 0 && r[5] == 0,
            }
        }),
{
}

/// Datagrams are as large as the query accepts, up to 4096 bytes; where the query does not
/// tell they have 512.
pub proof fn datagrams_are_as_large_as_accepted(query: Seq<u8>)
    ensures
        accepted_payload(query) == (match dns_head(query) {
            Some(h) => if h.max_payload <= 4096 {
                h.max_payload as int
            } else {
                4096
            },
            None => 512,
        }),
{
}

/// Under overload a query is answered with its identifier, a failure and nothing else;
/// whether recursion was desired is repeated.
pub proof fn overload_is_answered_with_a_failure(raw: Seq<u8>)
    ensures
        raw.len() < 2 ==> overload_failure(raw) is None,
        raw.len() >= 2 ==> (overload_failure(raw) matches Some(r) && r.len() == 12 && r[0] == raw[0] && r[1] == raw[1] && r[2]
            == 128 + (if raw.len() > 2 {
            raw[2] % 2
        } else {
            0
        }) && r[3] == 2 && forall|i: int| 4 <= i < 12 ==> #[trigger] r[i] == 0),
{
}

/// Two questions share a place in the cache exactly if they ask for the same type and the
/// same name, but for case; and what is kept for a name is what is kept for its questions.
pub proof fn questions_have_their_own_place(n: Seq<char>, t: u16, m: Seq<char>, u: u16)
    requires
        !n.contains('/'),
        !m.contains('/'),
    ensures
        question_key(n, t) == question_key(m, u) <==> lower(n) == lower(m) && t == u,
        about(question_key(n, t), m) <==> lower(n) == lower(m),
{
    let a = lower(n);
    let b = lower(m);
    let k = question_key(n, t);
    let l = question_key(m, u);
    assert forall|i: int| 0 <= i < a.len() implies #[trigger] a[i] != '/' by {
        if a[i] == '/' {
            assert(n[i] == '/');
        }
    }
    assert forall|i: int| 0 <= i < b.len() implies #[trigger] b[i] != '/' by {
        if b[i] == '/' {
            assert(m[i] == '/');
        }
    }
    assert(k[a.len() as int] == '/');
    assert(l[b.len() as int] == '/');
    assert(forall|i: int| 0 <= i < a.len() ==> #[trigger] k[i] == a[i]);
    assert(forall|i: int| 0 <= i < b.len() ==> #[trigger] l[i] == b[i]);
    if k == l {
        assert(a.len() == b.len());
        assert(a =~= k.take(a.len() as int));
        assert(b =~= k.take(a.len() as int));
        assert(decimal(t as nat) =~= k.skip(a.len() as int + 1));
        assert(decimal(u as nat) =~= l.skip(b.len() as int + 1));
        text::numbers_read_back(t as nat, 10);
        text::numbers_read_back(u as nat, 10);
    }
    let p = b + seq!['/'];
    if p.is_prefix_of(k) {
        assert(p =~= k.subrange(0, p.len() as int));
        assert(p[b.len() as int] == k[b.len() as int]);
        assert forall|i: int| 0 <= i < b.len() implies #[trigger] k[i] == b[i] by {
            assert(p[i] == k.subrange(0, p.len() as int)[i]);
        }
        if b.len() > a.len() {
            assert(b[a.len() as int] == '/');
        }
        if b.len() < a.len() {
            assert(a[b.len() as int] == '/');
        }
        assert forall|i: int| 0 <= i < a.len() implies a[i] == b[i] by {
            assert(k[i] == a[i]);
        }
        assert(a =~= b);
    }
    if a == b {
        assert(p =~= k.subrange(0, p.len() as int));
    }
}

/// An answer is kept under its question, with its bytes and its lifetime, for as long as
/// the lifetime says within the cache's limits.
pub proof fn answers_are_kept_under_their_question(cx: QueryContext, bytes: Seq<u8>, ttl: u32, cache: DnsCache, now: u64)
    requires
        cache.bounds().min_secs <= cache.bounds().max_secs <= 3600,
        now + 3600 * 1_000_000_000 <= u64::MAX,
    ensures
        ({
            let e = answer_entry(cx, bytes, ttl, cache, now);
            let b = cache.bounds();
            &&& e.key == question_key(cx.query.name@, cx.query.qtype)
            &&& e.data == bytes
            &&& e.number == ttl
            &&& b.min_secs <= ttl <= b.max_secs ==> e.expires_at == now + ttl * 1_000_000_000
            &&& ttl < b.min_secs ==> e.expires_at == now + b.min_secs * 1_000_000_000
            &&& ttl > b.max_secs ==> e.expires_at == now + b.max_secs * 1_000_000_000
        }),
{
}

/// What is found is what was kept, with the whole seconds that are left of it; what has
/// expired is not found.
pub proof fn found_answers_tell_the_time_left(
    s: Seq<Entry>,
    key: Seq<char>,
    now: u64,
    r: Option<(DnsResponse, u32)>,
    c: Option<CacheEntry>,
)
    requires
        found_remaining_at(s, key, now, r),
        hands_out(s, key, c),
    ensures
        r is Some <==> has_key(s, key) && now < s[key_index(s, key)].expires_at,
        r matches Some(f) ==> f.0.bytes@ == s[key_index(s, key)].data && f.0.ttl == s[key_index(s, key)].number && (
        s[key_index(s, key)].expires_at - now < 0x1_0000_0000 * 1_000_000_000 ==> f.1 * 1_000_000_000
            <= s[key_index(s, key)].expires_at - now < (f.1 + 1) * 1_000_000_000),
        c is Some <==> has_key(s, key),
        c matches Some(f) ==> f.response.bytes@ == s[key_index(s, key)].data && f.response.ttl == s[key_index(s, key)].number
            && f.expires_at == s[key_index(s, key)].expires_at,
{
    if let Some(f) = r {
        let d = s[key_index(s, key)].expires_at - now;
        assert(d / 1_000_000_000 * 1_000_000_000 <= d < (d / 1_000_000_000 + 1) * 1_000_000_000);
    }
}

/// Saved answers count again after a start for the time that was left of them; those whose
/// time has run out do not.
pub proof fn saved_answers_count_again(
    s: Seq<Entry>,
    capacity: nat,
    saved: Seq<(String, Vec<u8>, u32, i64)>,
    now: u64,
    now_unix: i64,
)
    requires
        saved.len() > 0,
        capacity > 0,
        now + (saved.last().3 - now_unix) * 1_000_000_000 <= u64::MAX,
    ensures
        saved.last().3 <= now_unix ==> restored(s, capacity, saved, now, now_unix) == restored(
            s,
            capacity,
            saved.drop_last(),
            now,
            now_unix,
        ),
        saved.last().3 > now_unix ==> restored(s, capacity, saved, now, now_unix)[0] == (Entry {
            key: saved.last().0@,
            data: saved.last().1@,
            number: saved.last().2,
            expires_at: (now + (saved.last().3 - now_unix) * 1_000_000_000) as u64,
        }),
        saved.last().3 > now_unix ==> restored(s, capacity, saved, now, now_unix) == after_put(
            restored(s, capacity, saved.drop_last(), now, now_unix),
            capacity,
            restored(s, capacity, saved, now, now_unix)[0],
        ),
{
}

}
