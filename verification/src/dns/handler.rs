//! The handling of a query: what is answered at once, what is passed on to a
//! resolver, and what becomes of the resolver's answer.
use vstd::prelude::*;
use vstd::slice::*;
use vstd::string::*;

use crate::blocklist::engine::{blocked_in, whitelisted_for, Blocklist, BlocklistView};
use crate::blocklist::suffix;
use crate::blocklist::suffix::label_suffix;
use crate::clients;
use crate::clients::unmapped;
use crate::dns::cache::{question_key, remaining_secs, response_entry, DnsCache};
use crate::dns::message;
use crate::dns::message::{
    dns_head, dns_records, dns_reply, dns_rewritten, has_lifetimes, has_reply_head, record_views, repeats_questions,
    DataView, HeadView, RecordView, ReplyHead, WireData, WireHead,
};
use crate::dns::types::{be16, DnsResponse, QueryEntry, QueryStatus};
use crate::ip;
use crate::ip::{ip_text, IpAddr};
use crate::lru_cache::{after_put, has_key, key_index, Entry};
use crate::text;
use crate::text::{texts, trim_end_char, unicode_lower};

verus! {

/// Counts queries.
pub struct QueryCounter {
    next: u64,
}

impl QueryCounter {
    /// The number of the next query.
    pub closed spec fn next(&self) -> u64 {
        self.next
    }

    /// A counter that starts at one.
    pub fn new() -> (r: QueryCounter)
        ensures
            r.next() == 1,
    {
        QueryCounter { next: 1 }
    }

    /// The next number. After the largest number comes zero.
    pub fn take(&mut self) -> (r: u64)
        ensures
            r == old(self).next(),
            final(self).next() == (if old(self).next() == u64::MAX {
                0
            } else {
                (old(self).next() + 1) as u64
            }),
    {
        let id: u64 = self.next;
        self.next = if id == u64::MAX {
            0
        } else {
            id + 1
        };
        id
    }
}

/// Counts log entries that were dropped because nobody took them in time.
pub struct DropCounter {
    dropped: u64,
}

/// The number is a power of two.
pub open spec fn power_of_two(n: nat) -> bool {
    exists|k: nat| n == #[trigger] vstd::arithmetic::power2::pow2(k)
}

impl DropCounter {
    /// How many entries were dropped.
    pub closed spec fn count(&self) -> u64 {
        self.dropped
    }

    /// No entry was dropped.
    pub fn new() -> (r: DropCounter)
        ensures
            r.count() == 0,
    {
        DropCounter { dropped: 0 }
    }

    /// How many entries were dropped.
    pub fn get(&self) -> (r: u64)
        ensures
            r == self.count(),
    {
        self.dropped
    }

    /// One more entry was dropped. Returns whether to warn of it: each time that the
    /// number has doubled.
    pub fn drop_one(&mut self) -> (r: bool)
        requires
            old(self).count() < u64::MAX,
        ensures
            final(self).count() == old(self).count() + 1,
            r == power_of_two(final(self).count() as nat),
    {
        self.dropped = self.dropped + 1;
        is_power_of_two(self.dropped)
    }
}

fn is_power_of_two(n: u64) -> (r: bool)
    requires
        n > 0,
    ensures
        r == power_of_two(n as nat),
{
    let mut m: u64 = n;
    let ghost mut k: nat = 0;
    proof {
        vstd::arithmetic::power2::lemma2_to64();
        assert(vstd::arithmetic::power2::pow2(0) == 1);
    }
    while m % 2 == 0
        invariant
            m > 0,
            n == m * vstd::arithmetic::power2::pow2(k),
        decreases m,
    {
        proof {
            vstd::arithmetic::power2::lemma_pow2_unfold(k + 1);
            let p = vstd::arithmetic::power2::pow2(k);
            let h = (m / 2) as nat;
            assert(m == 2 * h);
            assert(2 * h * p == h * (2 * p)) by (nonlinear_arith);
            k = k + 1;
        }
        m = m / 2;
    }
    proof {
        let p = vstd::arithmetic::power2::pow2(k);
        if m == 1 {
            assert(n == p);
        } else {
            assert forall|j: nat| n != #[trigger] vstd::arithmetic::power2::pow2(j) by {
                lemma_odd_multiple(m as nat, k, j);
            }
        }
    }
    m == 1
}

/// A power of two is no odd multiple of another one, but for itself.
proof fn lemma_odd_multiple(m: nat, k: nat, j: nat)
    requires
        m % 2 == 1,
        m > 1,
    ensures
        m * vstd::arithmetic::power2::pow2(k) != vstd::arithmetic::power2::pow2(j),
    decreases k,
{
    vstd::arithmetic::power2::lemma2_to64();
    let p = vstd::arithmetic::power2::pow2(k);
    let q = vstd::arithmetic::power2::pow2(j);
    if k == 0 {
        assert(m * p == m) by (nonlinear_arith)
            requires
                p == 1,
        ;
        if j > 0 {
            vstd::arithmetic::power2::lemma_pow2_unfold(j);
        }
    } else {
        vstd::arithmetic::power2::lemma_pow2_unfold(k);
        let h = vstd::arithmetic::power2::pow2((k - 1) as nat);
        assert(m * (2 * h) == 2 * (m * h)) by (nonlinear_arith);
        if j == 0 {
            assert(q == 1);
        } else {
            vstd::arithmetic::power2::lemma_pow2_unfold(j);
            lemma_odd_multiple(m, (k - 1) as nat, (j - 1) as nat);
        }
    }
}

/// Lifts the counter above the highest number that was ever recorded.
pub fn seed_query_counter(counter: &mut QueryCounter, max_persisted_id: u64)
    requires
        max_persisted_id < u64::MAX,
    ensures
        final(counter).next() == (if old(counter).next() > max_persisted_id {
            old(counter).next()
        } else {
            (max_persisted_id + 1) as u64
        }),
        final(counter).next() > max_persisted_id,
        final(counter).next() >= old(counter).next(),
{
    if counter.next <= max_persisted_id {
        counter.next = max_persisted_id + 1;
    }
}

/// The header of a reply of this server to a query.
pub open spec fn own_head(h: HeadView, authoritative: bool, code: u16) -> ReplyHead {
    ReplyHead {
        id: h.id,
        authoritative,
        recursion_desired: h.recursion_desired,
        recursion_available: true,
        response_code: code,
    }
}

/// The reply of this server to a query: nothing where there is no such message.
pub open spec fn own_reply(raw: Seq<u8>, authoritative: bool, code: u16) -> Seq<u8> {
    match dns_head(raw) {
        Some(h) => match dns_reply(raw, own_head(h, authoritative, code)) {
            Some(b) => b,
            None => Seq::empty(),
        },
        None => Seq::empty(),
    }
}

/// A reply to a query: it has the id of the query, this response code and the
/// query's questions.
pub open spec fn replies_to(raw: Seq<u8>, reply: Seq<u8>, authoritative: bool, code: u16) -> bool {
    match dns_head(raw) {
        Some(h) => has_reply_head(reply, own_head(h, authoritative, code)) && repeats_questions(raw, reply),
        None => false,
    }
}

/// What is answered for a name that does not exist.
pub open spec fn nxdomain(raw: Seq<u8>) -> Seq<u8> {
    own_reply(raw, true, 3)
}

/// What is answered after a failure.
pub open spec fn servfail(raw: Seq<u8>) -> Seq<u8> {
    own_reply(raw, false, 2)
}

fn build_reply(raw: &[u8], head: &WireHead, authoritative: bool, code: u16) -> (r: Vec<u8>)
    requires
        dns_head(raw@) == Some(head@),
    ensures
        r@ == own_reply(raw@, authoritative, code),
        r@.len() > 0 ==> replies_to(raw@, r@, authoritative, code),
{
    let own = ReplyHead {
        id: head.id,
        authoritative,
        recursion_desired: head.recursion_desired,
        recursion_available: true,
        response_code: code,
    };
    assert(own == own_head(head@, authoritative, code));
    match message::encode_reply(raw, own) {
        Some(b) => b,
        None => Vec::new(),
    }
}

/// The answer that a name does not exist, with the id and the questions of the
/// query. Empty where the query is no message.
pub fn build_nxdomain(raw: &[u8]) -> (r: Vec<u8>)
    ensures
        r@ == nxdomain(raw@),
        r@.len() > 0 ==> replies_to(raw@, r@, true, 3),
{
    match message::decode_head(raw) {
        Some(h) => build_reply(raw, &h, true, 3),
        None => Vec::new(),
    }
}

/// The answer that resolving failed, with the id and the questions of the query.
/// Empty where the query is no message.
pub fn build_servfail(raw: &[u8]) -> (r: Vec<u8>)
    ensures
        r@ == servfail(raw@),
        r@.len() > 0 ==> replies_to(raw@, r@, false, 2),
{
    match message::decode_head(raw) {
        Some(h) => build_reply(raw, &h, false, 2),
        None => Vec::new(),
    }
}

/// The response code of a message, at most the largest byte.
pub open spec fn rcode_of(bytes: Seq<u8>) -> Option<u8> {
    match dns_head(bytes) {
        Some(h) => Some(
            if h.response_code > 255 {
                255
            } else {
                h.response_code as u8
            },
        ),
        None => None,
    }
}

/// The response code of a message; none where the bytes are no message.
pub fn parse_rcode(bytes: &[u8]) -> (r: Option<u8>)
    ensures
        r == rcode_of(bytes@),
{
    match message::decode_head(bytes) {
        Some(h) => Some(
            if h.response_code > 255 {
                255
            } else {
                h.response_code as u8
            },
        ),
        None => None,
    }
}

/// The message with another id in its first two bytes.
pub open spec fn with_id(bytes: Seq<u8>, id: u16) -> Seq<u8> {
    if bytes.len() >= 2 {
        bytes.update(0, (id / 256) as u8).update(1, (id % 256) as u8)
    } else {
        bytes
    }
}

/// Writes an id into the first two bytes of a message. All other bytes stay.
pub fn patch_id(bytes: &[u8], id: u16) -> (r: Vec<u8>)
    ensures
        r@ == with_id(bytes@, id),
        r@.len() == bytes@.len(),
        r@.skip(2) == bytes@.skip(2),
        bytes@.len() >= 2 ==> be16(r@, 0) == id,
{
    let mut out = slice_to_vec(bytes);
    if out.len() >= 2 {
        out.set(0, (id / 256) as u8);
        out.set(1, (id % 256) as u8);
    }
    assert(out@.skip(2) =~= bytes@.skip(2));
    out
}

/// A cached message as it is sent to a client: with the id of the query, and all
/// records valid as long as the cached message is.
pub open spec fn cached_reply(bytes: Seq<u8>, id: u16, remaining: u32) -> Seq<u8> {
    match dns_records(bytes) {
        Some(records) => match dns_rewritten(bytes, id, Seq::new(records.len(), |i: int| remaining)) {
            Some(b) => b,
            None => with_id(bytes, id),
        },
        None => with_id(bytes, id),
    }
}

/// Prepares a cached message for a client: it gets the id of the query, and all its
/// records the remaining lifetime. Bytes that are no message only get the id.
pub fn patch_cached(bytes: &[u8], id: u16, remaining_ttl: u32) -> (r: Vec<u8>)
    ensures
        r@ == cached_reply(bytes@, id, remaining_ttl),
        bytes@.len() >= 2 ==> r@.len() >= 2 && be16(r@, 0) == id,
        r@ == with_id(bytes@, id) || (match dns_records(r@) {
            Some(records) => forall|i: int| 0 <= i < records.len() ==> (#[trigger] records[i]).ttl == remaining_ttl,
            None => true,
        }),
{
    let records = match message::decode_records(bytes) {
        Some(v) => v,
        None => return patch_id(bytes, id),
    };
    let mut ttls: Vec<u32> = Vec::new();
    let mut i: usize = 0;
    while i < records.len()
        invariant
            i <= records@.len(),
            ttls@.len() == i,
            forall|j: int| 0 <= j < i ==> #[trigger] ttls@[j] == remaining_ttl,
        decreases records@.len() - i,
    {
        ttls.push(remaining_ttl);
        i = i + 1;
    }
    assert(ttls@ =~= Seq::new(record_views(records@).len(), |i: int| remaining_ttl));
    match message::encode_rewritten(bytes, id, ttls.as_slice()) {
        Some(b) => {
            assert(has_lifetimes(b@, id, ttls@));
            b
        },
        None => patch_id(bytes, id),
    }
}

/// The lifetimes of the records, none above the limit.
pub open spec fn capped_ttls(records: Seq<RecordView>, max_ttl: u32) -> Seq<u32> {
    records.map_values(
        |r: RecordView|
            if r.ttl > max_ttl {
                max_ttl
            } else {
                r.ttl
            },
    )
}

/// Some record is valid longer than the limit.
pub open spec fn exceeds(records: Seq<RecordView>, max_ttl: u32) -> bool {
    exists|i: int| 0 <= i < records.len() && (#[trigger] records[i]).ttl > max_ttl
}

/// The message with no record valid longer than the limit; unchanged where none
/// is, and where it cannot be read or written.
pub open spec fn capped(bytes: Seq<u8>, max_ttl: u32) -> Seq<u8> {
    match (dns_head(bytes), dns_records(bytes)) {
        (Some(h), Some(records)) => if exceeds(records, max_ttl) {
            match dns_rewritten(bytes, h.id, capped_ttls(records, max_ttl)) {
                Some(b) => b,
                None => bytes,
            }
        } else {
            bytes
        },
        _ => bytes,
    }
}

/// No record of the message is valid longer than the limit.
pub open spec fn within_limit(bytes: Seq<u8>, max_ttl: u32) -> bool {
    match dns_records(bytes) {
        Some(records) => forall|i: int| 0 <= i < records.len() ==> (#[trigger] records[i]).ttl <= max_ttl,
        None => true,
    }
}

/// Limits the lifetimes of all records. The message stays as it is where no record
/// exceeds the limit.
pub fn cap_ttls(bytes: Vec<u8>, max_ttl: u32) -> (r: Vec<u8>)
    ensures
        r@ == capped(bytes@, max_ttl),
        r@ == bytes@ || within_limit(r@, max_ttl),
{
    let head = match message::decode_head(bytes.as_slice()) {
        Some(h) => h,
        None => return bytes,
    };
    let records = match message::decode_records(bytes.as_slice()) {
        Some(v) => v,
        None => return bytes,
    };
    let ghost rv = record_views(records@);
    let mut changed = false;
    let mut ttls: Vec<u32> = Vec::new();
    let mut i: usize = 0;
    while i < records.len()
        invariant
            i <= records@.len(),
            ttls@.len() == i,
            rv == record_views(records@),
            forall|j: int| 0 <= j < i ==> #[trigger] ttls@[j] == capped_ttls(rv, max_ttl)[j],
            forall|j: int| 0 <= j < i ==> #[trigger] ttls@[j] <= max_ttl,
            changed == exceeds(rv.take(i as int), max_ttl),
        decreases records@.len() - i,
    {
        let ttl: u32 = records[i].ttl;
        assert(rv[i as int].ttl == ttl);
        let ghost before = rv.take(i as int);
        let ghost after = rv.take(i + 1);
        proof {
            assert forall|j: int| 0 <= j < i implies before[j] == after[j] by {}
            assert(after[i as int] == rv[i as int]);
            if exceeds(before, max_ttl) {
                let j = choose|j: int| 0 <= j < before.len() && (#[trigger] before[j]).ttl > max_ttl;
                assert(after[j].ttl > max_ttl);
            }
            if exceeds(after, max_ttl) && ttl <= max_ttl {
                let j = choose|j: int| 0 <= j < after.len() && (#[trigger] after[j]).ttl > max_ttl;
                assert(before[j].ttl > max_ttl);
            }
        }
        if ttl > max_ttl {
            assert(after[i as int].ttl > max_ttl);
            changed = true;
            ttls.push(max_ttl);
        } else {
            ttls.push(ttl);
        }
        i = i + 1;
    }
    assert(rv.take(rv.len() as int) =~= rv);
    if !changed {
        return bytes;
    }
    assert(ttls@ =~= capped_ttls(rv, max_ttl));
    match message::encode_rewritten(bytes.as_slice(), head.id, ttls.as_slice()) {
        Some(b) => {
            assert(has_lifetimes(b@, head.id, ttls@));
            b
        },
        None => bytes,
    }
}

/// The least lifetime of the first `n` records.
pub open spec fn least_ttl(records: Seq<RecordView>, n: nat) -> u32
    decreases n,
{
    if n == 0 {
        u32::MAX
    } else {
        let rest = least_ttl(records, (n - 1) as nat);
        if records[n - 1].ttl < rest {
            records[n - 1].ttl
        } else {
            rest
        }
    }
}

/// How long the absence of a record may be remembered: by the first start of
/// authority among the records from `i` to `end`.
pub open spec fn negative_ttl(records: Seq<RecordView>, i: int, end: int) -> Option<u32>
    decreases end - i,
{
    if i >= end {
        None
    } else {
        match records[i].data {
            DataView::Soa(minimum) => Some(
                if records[i].ttl < minimum {
                    records[i].ttl
                } else {
                    minimum
                },
            ),
            _ => negative_ttl(records, i + 1, end),
        }
    }
}

/// A lifetime for which something can be cached.
pub open spec fn positive(ttl: Option<u32>) -> Option<u32> {
    match ttl {
        Some(t) if t > 0 => Some(t),
        _ => None,
    }
}

/// For how long a message may be cached: the least lifetime of its answers, or
/// without answers that of its start of authority. None where it may not.
pub open spec fn cache_lifetime(bytes: Seq<u8>) -> Option<u32> {
    match (dns_head(bytes), dns_records(bytes)) {
        (Some(h), Some(records)) => if h.answers > 0 {
            positive(Some(least_ttl(records, h.answers)))
        } else {
            positive(negative_ttl(records, 0, h.authorities as int))
        },
        _ => None,
    }
}

/// For how long a message may be cached.
pub fn cache_ttl(bytes: &[u8]) -> (r: Option<u32>)
    ensures
        r == cache_lifetime(bytes@),
{
    let head = match message::decode_head(bytes) {
        Some(h) => h,
        None => return None,
    };
    let records = match message::decode_records(bytes) {
        Some(v) => v,
        None => return None,
    };
    let ghost rv = record_views(records@);
    if head.answers > 0 {
        let mut least: u32 = u32::MAX;
        let mut i: usize = 0;
        while i < head.answers
            invariant
                i <= head.answers <= records@.len(),
                rv == record_views(records@),
                least == least_ttl(rv, i as nat),
            decreases head.answers - i,
        {
            assert(rv[i as int].ttl == records@[i as int].ttl);
            if records[i].ttl < least {
                least = records[i].ttl;
            }
            i = i + 1;
        }
        return if least > 0 {
            Some(least)
        } else {
            None
        };
    }
    let mut i: usize = 0;
    while i < head.authorities
        invariant
            i <= head.authorities <= records@.len(),
            rv == record_views(records@),
            negative_ttl(rv, 0, head.authorities as int) == negative_ttl(rv, i as int, head.authorities as int),
            cache_lifetime(bytes@) == positive(negative_ttl(rv, 0, head.authorities as int)),
        decreases head.authorities - i,
    {
        assert(rv[i as int] == records@[i as int]@);
        if let WireData::Soa(minimum) = records[i].data {
            let least: u32 = if records[i].ttl < minimum {
                records[i].ttl
            } else {
                minimum
            };
            return if least > 0 {
                Some(least)
            } else {
                None
            };
        }
        i = i + 1;
    }
    None
}

/// The pattern keeps the name out of the query log: `*.x` stands for `x` and
/// everything below it, anything else for itself.
pub open spec fn ignored_by(name: Seq<char>, pattern: Seq<char>) -> bool {
    if "*."@.is_prefix_of(pattern) {
        label_suffix(name, pattern.skip(2))
    } else {
        name == pattern
    }
}

/// Some pattern keeps the name out of the query log.
pub open spec fn ignored(name: Seq<char>, patterns: Seq<Seq<char>>) -> bool {
    exists|i: int| 0 <= i < patterns.len() && ignored_by(name, #[trigger] patterns[i])
}

/// Whether a name is kept out of the query log.
pub fn is_log_ignored(name: &str, patterns: &Vec<String>) -> (r: bool)
    ensures
        r == ignored(name@, texts(patterns@)),
{
    let ghost ps = texts(patterns@);
    let mut i: usize = 0;
    while i < patterns.len()
        invariant
            i <= patterns@.len(),
            ps == texts(patterns@),
            forall|j: int| 0 <= j < i ==> !ignored_by(name@, #[trigger] ps[j]),
        decreases patterns@.len() - i,
    {
        let p = text::chars_of(patterns[i].as_str());
        assert(ps[i as int] == p@);
        if text::starts_with(p.as_slice(), "*.") {
            proof {
                reveal_strlit("*.");
            }
            let rest = slice_subrange(p.as_slice(), 2, p.len());
            assert(rest@ =~= p@.skip(2));
            let suffix = text::string_of(rest);
            if suffix::has_suffix(name, suffix.as_str()) {
                assert(ignored_by(name@, ps[i as int]));
                return true;
            }
        } else if text::str_same(name, patterns[i].as_str()) {
            assert(ignored_by(name@, ps[i as int]));
            return true;
        }
        i = i + 1;
    }
    false
}

/// The domain that an alias leads to, as the block rules know it.
pub open spec fn alias_target(name: Seq<char>) -> Seq<char> {
    trim_end_char(unicode_lower(name), '.')
}

/// The domain is blocked and not exempt, for clients without a profile.
pub open spec fn refused(v: BlocklistView, d: Seq<char>) -> bool {
    !whitelisted_for(v, d, None) && blocked_in(v, d, v.fst)
}

/// The first alias among the records from `i` to `end` that leads to a refused domain.
pub open spec fn refused_alias(v: BlocklistView, records: Seq<RecordView>, i: int, end: int) -> Option<Seq<char>>
    decreases end - i,
{
    if i >= end {
        None
    } else {
        match records[i].data {
            DataView::Cname(n) if refused(v, alias_target(n)) => Some(alias_target(n)),
            _ => refused_alias(v, records, i + 1, end),
        }
    }
}

/// The first refused domain that an answer leads to. Where the asked name is
/// exempt, so is all that it leads to.
pub open spec fn refused_target(v: BlocklistView, bytes: Seq<u8>, name: Seq<char>) -> Option<Seq<char>> {
    if whitelisted_for(v, name, None) {
        None
    } else {
        match (dns_head(bytes), dns_records(bytes)) {
            (Some(h), Some(records)) => refused_alias(v, records, 0, h.answers as int),
            _ => None,
        }
    }
}

/// The text that an optional string holds.
pub open spec fn opt_view(s: Option<String>) -> Option<Seq<char>> {
    match s {
        Some(t) => Some(t@),
        None => None,
    }
}

/// The first domain in an answer's chain of aliases that is blocked. None where the
/// asked name is exempt.
pub fn cname_blocked_target(response_bytes: &[u8], queried_name: &str, blocklist: &mut Blocklist) -> (r: Option<String>)
    requires
        old(blocklist).wf(),
    ensures
        final(blocklist).wf(),
        final(blocklist)@ == old(blocklist)@,
        opt_view(r) == refused_target(old(blocklist)@, response_bytes@, queried_name@),
{
    let ghost v = blocklist@;
    if blocklist.is_whitelisted_normalized(queried_name) {
        return None;
    }
    let head = match message::decode_head(response_bytes) {
        Some(h) => h,
        None => return None,
    };
    let records = match message::decode_records(response_bytes) {
        Some(rs) => rs,
        None => return None,
    };
    let ghost rv = record_views(records@);
    let mut i: usize = 0;
    while i < head.answers
        invariant
            i <= head.answers <= records@.len(),
            rv == record_views(records@),
            blocklist.wf(),
            blocklist@ == v,
            v == old(blocklist)@,
            refused_target(v, response_bytes@, queried_name@) == refused_alias(v, rv, i as int, head.answers as int),
        decreases head.answers - i,
    {
        assert(rv[i as int] == records@[i as int]@);
        if let WireData::Cname(n) = &records[i].data {
            let low = n.as_str().to_lowercase();
            let cs = text::chars_of(low.as_str());
            let target = text::string_of(text::trimmed_end_char(cs.as_slice(), '.'));
            assert(target@ == alias_target(n@));
            if !blocklist.is_whitelisted_normalized(target.as_str()) && blocklist.is_blocked_normalized(target.as_str()) {
                return Some(target);
            }
        }
        i = i + 1;
    }
    None
}

/// A query as it was received.
#[derive(Debug)]
pub struct OpenQuery {
    pub id: u16,
    /// The asked name, in lower case and without dots at its end.
    pub name: String,
    pub qtype: u16,
    /// Who asks.
    pub client: IpAddr,
    /// The address of the client as text.
    pub client_ip: String,
}

/// How a received message is dealt with.
#[derive(Debug)]
pub enum Opening {
    /// Not at all.
    Silent,
    /// By this reply.
    Reply(Vec<u8>),
    /// As a query.
    Query(OpenQuery),
}

/// The name of a question as it is looked up.
pub open spec fn asked_name(name: Seq<char>) -> Seq<char> {
    trim_end_char(name, '.')
}

/// How the bytes of a message are dealt with: what is no message is dropped, what
/// asks no standard question fails, and anything else is a query.
pub open spec fn opens(raw: Seq<u8>, src: IpAddr, r: Opening) -> bool {
    match dns_head(raw) {
        None => r is Silent,
        Some(h) => if h.op_code != 0 || h.questions.len() == 0 {
            match r {
                Opening::Reply(b) => b@ == servfail(raw) && (b@.len() > 0 ==> replies_to(raw, b@, false, 2)),
                _ => false,
            }
        } else {
            match r {
                Opening::Query(q) => {
                    &&& q.id == h.id
                    &&& q.name@ == asked_name(h.questions[0].name)
                    &&& q.qtype == h.questions[0].qtype
                    &&& q.client == unmapped(src)
                    &&& q.client_ip@ == ip_text(unmapped(src))
                },
                _ => false,
            }
        },
    }
}

/// Reads a received message.
pub fn open_query(raw: &[u8], src: IpAddr) -> (r: Opening)
    ensures
        opens(raw@, src, r),
{
    let head = match message::decode_head(raw) {
        Some(h) => h,
        None => return Opening::Silent,
    };
    if head.op_code != 0 || head.questions.len() == 0 {
        return Opening::Reply(build_reply(raw, &head, false, 2));
    }
    assert(head@.questions[0] == head.questions@[0]@);
    let cs = text::chars_of(head.questions[0].name.as_str());
    let name = text::string_of(text::trimmed_end_char(cs.as_slice(), '.'));
    let client = clients::unmap_v4(src);
    let client_ip = ip::format_ip(&client);
    Opening::Query(OpenQuery { id: head.id, name, qtype: head.questions[0].qtype, client, client_ip })
}

/// Whether the hardware address of a client matters: where some clients are never
/// blocked, or where routing depends on the client.
pub fn needs_client_mac(blocklist: &Blocklist, has_client_rules: bool) -> (r: bool)
    ensures
        r == ((blocklist@.enabled && !blocklist@.client_bypass.is_empty()) || has_client_rules),
{
    (blocklist.blocking_enabled() && blocklist.has_client_bypass()) || has_client_rules
}

/// Block rules apply to this client: blocking is on, and neither of the client's
/// addresses is exempt.
pub open spec fn filtered(v: BlocklistView, client_ip: Seq<char>, mac: Option<Seq<char>>) -> bool {
    v.enabled && !v.client_bypass.contains(client_ip) && !(mac is Some && v.client_bypass.contains(mac->0))
}

/// The text that an optional reference points to.
pub open spec fn opt_str(s: Option<&str>) -> Option<Seq<char>> {
    match s {
        Some(t) => Some(t@),
        None => None,
    }
}

/// Whether block rules apply to a client.
pub fn filtering_enabled(blocklist: &Blocklist, client_ip: &str, client_mac: Option<&str>) -> (r: bool)
    ensures
        r == filtered(blocklist@, client_ip@, opt_str(client_mac)),
{
    blocklist.blocking_enabled() && !blocklist.client_bypasses_blocking_normalized(client_ip, client_mac)
}

/// How a query was answered, for the query log.
#[derive(Debug)]
pub struct LogLine {
    pub status: QueryStatus,
    pub upstream: Option<String>,
    pub rcode: u8,
}

/// The answer to a query, and what is logged of it.
#[derive(Debug)]
pub struct Outcome {
    pub reply: Vec<u8>,
    /// None where the query is kept out of the log.
    pub log: Option<LogLine>,
}

/// A log line as a plain value.
pub ghost struct LogView {
    pub status: QueryStatus,
    pub upstream: Option<Seq<char>>,
    pub rcode: u8,
}

/// An outcome as a plain value.
pub ghost struct OutcomeView {
    pub reply: Seq<u8>,
    pub log: Option<LogView>,
}

impl View for Outcome {
    type V = OutcomeView;

    open spec fn view(&self) -> OutcomeView {
        OutcomeView {
            reply: self.reply@,
            log: match self.log {
                Some(l) => Some(LogView { status: l.status, upstream: opt_view(l.upstream), rcode: l.rcode }),
                None => None,
            },
        }
    }
}

/// An outcome, logged unless the name is kept out of the log.
pub open spec fn outcome(
    reply: Seq<u8>,
    log_ignored: bool,
    status: QueryStatus,
    upstream: Option<Seq<char>>,
    rcode: u8,
) -> OutcomeView {
    OutcomeView {
        reply,
        log: if log_ignored {
            None
        } else {
            Some(LogView { status, upstream, rcode })
        },
    }
}

fn conclude(reply: Vec<u8>, log_ignored: bool, status: QueryStatus, upstream: Option<String>, rcode: u8) -> (r: Outcome)
    ensures
        r@ == outcome(reply@, log_ignored, status, opt_view(upstream), rcode),
{
    let log = if log_ignored {
        None
    } else {
        Some(LogLine { status, upstream, rcode })
    };
    Outcome { reply, log }
}

/// A text with a label in front.
fn labelled(label: &str, s: &str) -> (r: String)
    ensures
        r@ == label@ + s@,
{
    let mut out = String::new();
    out.append(label);
    out.append(s);
    assert(out@ =~= label@ + s@);
    out
}

/// A query that is redirected to the proxy: the reply, and the route that it takes.
#[derive(Debug)]
pub struct Intercept {
    pub response: DnsResponse,
    pub egress_id: String,
}

/// A query in the midst of its handling.
#[derive(Debug)]
pub struct QueryContext {
    pub query: OpenQuery,
    /// Block rules apply to the client.
    pub filtering: bool,
    /// The name is kept out of the log.
    pub log_ignored: bool,
}

/// What is cached for the query and has not expired.
pub open spec fn cached_entry(entries: Seq<Entry>, q: OpenQuery, now: u64) -> Option<Entry> {
    let key = question_key(q.name@, q.qtype);
    if has_key(entries, key) && now < entries[key_index(entries, key)].expires_at {
        Some(entries[key_index(entries, key)])
    } else {
        None
    }
}

/// The answer that can be given without asking a resolver. In this order: a local
/// record, a redirection to the proxy, a refusal of a blocked name, and a cached
/// response, which is refused too where it leads to a blocked name.
pub open spec fn local_answer(
    raw: Seq<u8>,
    cx: QueryContext,
    custom: Option<DnsResponse>,
    intercept: Option<Intercept>,
    v: BlocklistView,
    entries: Seq<Entry>,
    now: u64,
) -> Option<OutcomeView> {
    let q = cx.query;
    match custom {
        Some(c) => Some(
            outcome(with_id(c.bytes@, q.id), cx.log_ignored, QueryStatus::Allowed, Some("custom"@), 0),
        ),
        None => match intercept {
            Some(i) => Some(
                outcome(
                    with_id(i.response.bytes@, q.id),
                    cx.log_ignored,
                    QueryStatus::Allowed,
                    Some("proxy:"@ + i.egress_id@),
                    0,
                ),
            ),
            None => if cx.filtering && refused(v, q.name@) {
                Some(outcome(nxdomain(raw), cx.log_ignored, QueryStatus::Blocked, None, 3))
            } else {
                match cached_entry(entries, q, now) {
                    Some(e) => if cx.filtering && refused_target(v, e.data, q.name@) is Some {
                        Some(
                            outcome(
                                nxdomain(raw),
                                cx.log_ignored,
                                QueryStatus::Blocked,
                                Some("cname:"@ + refused_target(v, e.data, q.name@)->0),
                                3,
                            ),
                        )
                    } else {
                        Some(
                            outcome(
                                cached_reply(e.data, q.id, remaining_secs(e.expires_at, now)),
                                cx.log_ignored,
                                QueryStatus::Cached,
                                None,
                                0,
                            ),
                        )
                    },
                    None => None,
                }
            },
        },
    }
}

/// The query is refused without asking a resolver.
pub open spec fn refused_locally(
    cx: QueryContext,
    custom: Option<DnsResponse>,
    intercept: Option<Intercept>,
    v: BlocklistView,
    entries: Seq<Entry>,
    now: u64,
) -> bool {
    &&& custom is None
    &&& intercept is None
    &&& cx.filtering
    &&& refused(v, cx.query.name@) || match cached_entry(entries, cx.query, now) {
        Some(e) => refused_target(v, e.data, cx.query.name@) is Some,
        None => false,
    }
}

/// Answers a query without asking a resolver, if that is possible. A local record is
/// cached as the answer to the query.
pub fn answer_locally(
    raw: &[u8],
    cx: &QueryContext,
    custom: Option<DnsResponse>,
    intercept: Option<Intercept>,
    blocklist: &mut Blocklist,
    cache: &mut DnsCache,
    now: u64,
) -> (r: Option<Outcome>)
    requires
        old(blocklist).wf(),
        old(cache).wf(),
    ensures
        final(blocklist).wf(),
        final(blocklist)@ == old(blocklist)@,
        final(cache).wf(),
        final(cache).bounds() == old(cache).bounds(),
        final(cache).capacity() == old(cache).capacity(),
        final(cache).entries() == (match custom {
            Some(c) => after_put(
                old(cache).entries(),
                old(cache).capacity(),
                response_entry(question_key(cx.query.name@, cx.query.qtype), c, old(cache).bounds(), now),
            ),
            None => old(cache).entries(),
        }),
        match r {
            Some(o) => local_answer(raw@, *cx, custom, intercept, old(blocklist)@, old(cache).entries(), now) == Some(
                o@,
            ),
            None => local_answer(raw@, *cx, custom, intercept, old(blocklist)@, old(cache).entries(), now) is None,
        },
        refused_locally(*cx, custom, intercept, old(blocklist)@, old(cache).entries(), now) ==> (match r {
            Some(o) => o.reply@.len() > 0 ==> replies_to(raw@, o.reply@, true, 3),
            None => false,
        }),
{
    let name = cx.query.name.as_str();
    if let Some(c) = custom {
        let reply = patch_id(c.bytes.as_slice(), cx.query.id);
        cache.insert_at(name, cx.query.qtype, c, now);
        return Some(conclude(reply, cx.log_ignored, QueryStatus::Allowed, Some("custom".to_string()), 0));
    }
    if let Some(i) = intercept {
        let reply = patch_id(i.response.bytes.as_slice(), cx.query.id);
        let route = labelled("proxy:", i.egress_id.as_str());
        return Some(conclude(reply, cx.log_ignored, QueryStatus::Allowed, Some(route), 0));
    }
    if cx.filtering && !blocklist.is_whitelisted_normalized(name) && blocklist.is_blocked_normalized(name) {
        return Some(conclude(build_nxdomain(raw), cx.log_ignored, QueryStatus::Blocked, None, 3));
    }
    match cache.get_with_remaining_at(name, cx.query.qtype, now) {
        Some((cached, remaining)) => {
            if cx.filtering {
                if let Some(target) = cname_blocked_target(cached.bytes.as_slice(), name, blocklist) {
                    let label = labelled("cname:", target.as_str());
                    return Some(conclude(build_nxdomain(raw), cx.log_ignored, QueryStatus::Blocked, Some(label), 3));
                }
            }
            let reply = patch_cached(cached.bytes.as_slice(), cx.query.id, remaining);
            Some(conclude(reply, cx.log_ignored, QueryStatus::Cached, None, 0))
        },
        None => None,
    }
}

/// What a resolver answered, by its bytes and the resolver's name; none where it
/// failed.
#[derive(Debug)]
pub struct Upstream {
    pub bytes: Vec<u8>,
    pub label: String,
}

/// The answer that counts: what the resolver sent where it is a message, else a
/// failure.
pub open spec fn taken_answer(raw: Seq<u8>, upstream: Option<Upstream>) -> (Seq<u8>, u8, Option<Seq<char>>) {
    match upstream {
        Some(u) => match rcode_of(u.bytes@) {
            Some(rc) => (u.bytes@, rc, Some(u.label@)),
            None => (servfail(raw), 2, None),
        },
        None => (servfail(raw), 2, None),
    }
}

/// The answer leads to a blocked name.
pub open spec fn leads_to_refused(cx: QueryContext, v: BlocklistView, bytes: Seq<u8>, rcode: u8) -> Option<Seq<char>> {
    if rcode == 0 && cx.filtering {
        refused_target(v, bytes, cx.query.name@)
    } else {
        None
    }
}

/// The answer to a query that was passed on to a resolver.
pub open spec fn upstream_answer(
    raw: Seq<u8>,
    cx: QueryContext,
    upstream: Option<Upstream>,
    v: BlocklistView,
    max_ttl: u64,
) -> OutcomeView {
    let (bytes, rcode, label) = taken_answer(raw, upstream);
    match leads_to_refused(cx, v, bytes, rcode) {
        Some(t) => outcome(nxdomain(raw), cx.log_ignored, QueryStatus::Blocked, Some("cname:"@ + t), 3),
        None => outcome(capped(bytes, max_ttl as u32), cx.log_ignored, QueryStatus::Upstream, label, rcode),
    }
}

/// The entry that the answer of a resolver leaves in the cache, if any: only
/// successful answers that may be cached and lead to no blocked name.
pub open spec fn upstream_entry(
    raw: Seq<u8>,
    cx: QueryContext,
    upstream: Option<Upstream>,
    v: BlocklistView,
) -> Option<(Seq<u8>, u32)> {
    let (bytes, rcode, label) = taken_answer(raw, upstream);
    if rcode == 0 && bytes.len() > 0 && leads_to_refused(cx, v, bytes, rcode) is None {
        match cache_lifetime(bytes) {
            Some(ttl) => Some((bytes, ttl)),
            None => None,
        }
    } else {
        None
    }
}

/// Deals with what a resolver answered.
pub fn answer_from_upstream(
    raw: &[u8],
    cx: &QueryContext,
    upstream: Option<Upstream>,
    blocklist: &mut Blocklist,
    cache: &mut DnsCache,
    now: u64,
) -> (r: Outcome)
    requires
        old(blocklist).wf(),
        old(cache).wf(),
    ensures
        final(blocklist).wf(),
        final(blocklist)@ == old(blocklist)@,
        final(cache).wf(),
        final(cache).bounds() == old(cache).bounds(),
        final(cache).capacity() == old(cache).capacity(),
        r@ == upstream_answer(raw@, *cx, upstream, old(blocklist)@, old(cache).bounds().max_secs),
        match upstream_entry(raw@, *cx, upstream, old(blocklist)@) {
            Some((bytes, ttl)) => final(cache).entries() == after_put(
                old(cache).entries(),
                old(cache).capacity(),
                answer_entry(*cx, bytes, ttl, *old(cache), now),
            ),
            None => final(cache).entries() == old(cache).entries(),
        },
        ({
            let (bytes, rcode, label) = taken_answer(raw@, upstream);
            leads_to_refused(*cx, old(blocklist)@, bytes, rcode) is Some && r.reply@.len() > 0 ==> replies_to(
                raw@,
                r.reply@,
                true,
                3,
            )
        }),
{
    let ghost (gb, gr, gl) = taken_answer(raw@, upstream);
    let mut bytes: Vec<u8> = Vec::new();
    let mut rcode: u8 = 2;
    let mut label: Option<String> = None;
    match upstream {
        Some(u) => match parse_rcode(u.bytes.as_slice()) {
            Some(rc) => {
                bytes = u.bytes;
                rcode = rc;
                label = Some(u.label);
            },
            None => {
                bytes = build_servfail(raw);
            },
        },
        None => {
            bytes = build_servfail(raw);
        },
    }
    assert(bytes@ == gb && rcode == gr && opt_view(label) == gl);
    if rcode == 0 && cx.filtering {
        if let Some(target) = cname_blocked_target(bytes.as_slice(), cx.query.name.as_str(), blocklist) {
            let why = labelled("cname:", target.as_str());
            return conclude(build_nxdomain(raw), cx.log_ignored, QueryStatus::Blocked, Some(why), 3);
        }
    }
    if rcode == 0 && bytes.len() > 0 {
        if let Some(ttl) = cache_ttl(bytes.as_slice()) {
            let response = DnsResponse { bytes: slice_to_vec(bytes.as_slice()), ttl };
            cache.insert_at(cx.query.name.as_str(), cx.query.qtype, response, now);
        }
    }
    let max_ttl: u64 = cache.max_ttl_secs();
    conclude(cap_ttls(bytes, max_ttl as u32), cx.log_ignored, QueryStatus::Upstream, label, rcode)
}

/// The cache entry for an answer.
pub open spec fn answer_entry(cx: QueryContext, bytes: Seq<u8>, ttl: u32, cache: DnsCache, now: u64) -> Entry {
    Entry {
        key: question_key(cx.query.name@, cx.query.qtype),
        data: bytes,
        number: ttl,
        expires_at: crate::lru_cache::later(
            now,
            crate::dns::cache::clamped(ttl as u64, cache.bounds().min_secs, cache.bounds().max_secs),
        ),
    }
}

/// The log entry for a query, with the next number.
pub fn make_entry(
    counter: &mut QueryCounter,
    timestamp: i64,
    query: &OpenQuery,
    line: LogLine,
    latency_ms: u32,
) -> (r: QueryEntry)
    ensures
        r.id == old(counter).next(),
        final(counter).next() == (if old(counter).next() == u64::MAX {
            0
        } else {
            (old(counter).next() + 1) as u64
        }),
        r.timestamp == timestamp,
        r.domain@ == query.name@,
        r.query_type == query.qtype,
        r.client_ip@ == query.client_ip@,
        r.device@ == Seq::<char>::empty(),
        r.status == line.status,
        r.latency_ms == latency_ms,
        r.upstream == line.upstream,
        r.rcode == line.rcode,
{
    QueryEntry {
        id: counter.take(),
        timestamp,
        domain: query.name.clone(),
        query_type: query.qtype,
        client_ip: query.client_ip.clone(),
        device: String::new(),
        status: line.status,
        latency_ms,
        upstream: line.upstream,
        rcode: line.rcode,
    }
}

}
