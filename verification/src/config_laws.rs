//! What holds of every configuration in its canonical form.
use vstd::prelude::*;
use vstd::utf8::encode_utf8;

use crate::clients::client_key;
use crate::clients::laws::client_keys_are_canonical;
use crate::config::{
    client_keys, egress_id, egress_ids, kept_egresses, kept_rules, normal_blocklist, normal_proxy, plain_ids, secret, usable_rule,
    BlocklistConfig, EgressConfig, ProxyConfig, RuleConfig,
};
use crate::order::{ascending, bytes_lt, text_lt};
use crate::text::{is_ws, lemma_trimmed, texts, trim, trim_end, trim_start};

verus! {

proof fn lemma_trim_ends(s: Seq<char>)
    ensures
        trim_end(s).is_prefix_of(s),
        trim_end(s).len() > 0 ==> !is_ws(trim_end(s).last()),
    decreases s.len(),
{
    if s.len() > 0 && is_ws(s.last()) {
        lemma_trim_ends(s.drop_last());
    }
}

proof fn lemma_trim_starts(s: Seq<char>)
    ensures
        trim_start(s).len() > 0 ==> !is_ws(trim_start(s)[0]),
    decreases s.len(),
{
    if s.len() > 0 && is_ws(s[0]) {
        lemma_trim_starts(s.skip(1));
    }
}

/// A trimmed text stays as it is when it is trimmed again.
pub proof fn trimming_is_idempotent(s: Seq<char>)
    ensures
        trim(trim(s)) == trim(s),
{
    lemma_trim_starts(s);
    lemma_trim_ends(trim_start(s));
    let t = trim(s);
    if t.len() > 0 {
        assert(t[0] == trim_start(s)[0]);
    }
    lemma_trimmed(t);
}

/// A secret in its canonical form stays as it is.
pub proof fn secrets_are_canonical(s: Option<Seq<char>>)
    ensures
        secret(secret(s)) == secret(s),
{
    if s is Some {
        trimming_is_idempotent(s->0);
    }
}

/// The egresses that count are among the given ones, have identifiers, and no two of
/// them the same.
proof fn lemma_kept_egresses(es: Seq<EgressConfig>)
    ensures
        forall|i: int| 0 <= i < kept_egresses(es).len() ==> egress_id(#[trigger] kept_egresses(es)[i]).len() > 0,
        forall|i: int|
            0 <= i < kept_egresses(es).len() ==> egress_ids(es).contains(egress_id(#[trigger] kept_egresses(es)[i])),
        forall|i: int, j: int|
            0 <= i < j < kept_egresses(es).len() ==> egress_id(#[trigger] kept_egresses(es)[i]) != egress_id(
                #[trigger] kept_egresses(es)[j],
            ),
    decreases es.len(),
{
    if es.len() > 0 {
        let rest = es.skip(1);
        lemma_kept_egresses(rest);
        let ks = kept_egresses(rest);
        let f = |e: EgressConfig| egress_id(e);
        let all = es.map_values(f);
        assert(all[0] == egress_id(es[0]));
        assert forall|i: int| 0 <= i < ks.len() implies egress_ids(es).contains(egress_id(#[trigger] ks[i])) by {
            let part = rest.map_values(f);
            assert(egress_ids(rest).contains(egress_id(ks[i])));
            let k = choose|k: int| 0 <= k < part.len() && part[k] == egress_id(ks[i]);
            assert(all[k + 1] == part[k]);
        }
        let whole = kept_egresses(es);
        if whole.len() > ks.len() {
            assert(whole == seq![es[0]] + ks);
            assert forall|i: int, j: int| 0 <= i < j < whole.len() implies egress_id(#[trigger] whole[i]) != egress_id(
                #[trigger] whole[j],
            ) by {
                assert(whole[j] == ks[j - 1]);
                if i > 0 {
                    assert(whole[i] == ks[i - 1]);
                } else {
                    assert(egress_ids(rest).contains(egress_id(ks[j - 1])));
                }
            }
            assert forall|i: int| 0 <= i < whole.len() implies egress_id(#[trigger] whole[i]).len() > 0 && egress_ids(
                es,
            ).contains(egress_id(whole[i])) by {
                if i > 0 {
                    assert(whole[i] == ks[i - 1]);
                }
            }
        }
    }
}

proof fn lemma_kept_rules(rs: Seq<RuleConfig>, ids: Set<Seq<char>>)
    ensures
        forall|i: int| 0 <= i < kept_rules(rs, ids).len() ==> usable_rule(#[trigger] kept_rules(rs, ids)[i], ids),
    decreases rs.len(),
{
    if rs.len() > 0 {
        lemma_kept_rules(rs.skip(1), ids);
        let ks = kept_rules(rs.skip(1), ids);
        let whole = kept_rules(rs, ids);
        assert forall|i: int| 0 <= i < whole.len() implies usable_rule(#[trigger] whole[i], ids) by {
            if usable_rule(rs[0], ids) {
                if i > 0 {
                    assert(whole[i] == ks[i - 1]);
                }
            } else {
                assert(whole[i] == ks[i]);
            }
        }
    }
}

/// In the canonical form every egress has an identifier of its own, and every rule has
/// a pattern and names one of the egresses.
pub proof fn routing_is_consistent(c: ProxyConfig, r: ProxyConfig)
    requires
        normal_proxy(c, r),
    ensures
        forall|i: int| 0 <= i < r.egresses@.len() ==> (#[trigger] r.egresses@[i]).id@.len() > 0,
        forall|i: int, j: int|
            0 <= i < j < r.egresses@.len() ==> (#[trigger] r.egresses@[i]).id@ != (#[trigger] r.egresses@[j]).id@,
        forall|i: int|
            0 <= i < r.rules@.len() ==> (#[trigger] r.rules@[i]).pattern@.len() > 0 && exists|k: int|
                0 <= k < r.egresses@.len() && (#[trigger] r.egresses@[k]).id@ == r.rules@[i].egress@,
{
    let es = kept_egresses(c.egresses@);
    lemma_kept_egresses(c.egresses@);
    assert forall|i: int| 0 <= i < r.egresses@.len() implies (#[trigger] r.egresses@[i]).id@ == egress_id(es[i]) by {}
    let ids = plain_ids(r.egresses@);
    lemma_kept_rules(c.rules@, ids);
    let os = kept_rules(c.rules@, ids);
    assert forall|i: int| 0 <= i < r.rules@.len() implies (#[trigger] r.rules@[i]).pattern@.len() > 0 && exists|k: int|
        0 <= k < r.egresses@.len() && (#[trigger] r.egresses@[k]).id@ == r.rules@[i].egress@ by {
        assert(usable_rule(os[i], ids));
        let t = r.egresses@.map_values(|e: EgressConfig| e.id@);
        assert(t.contains(r.rules@[i].egress@));
        let k = choose|k: int| 0 <= k < t.len() && t[k] == r.rules@[i].egress@;
        assert(r.egresses@[k].id@ == t[k]);
    }
}

proof fn lemma_bytes_order(a: Seq<u8>, b: Seq<u8>, c: Seq<u8>)
    ensures
        !bytes_lt(a, a),
        bytes_lt(a, b) && bytes_lt(b, c) ==> bytes_lt(a, c),
    decreases a.len(),
{
    if a.len() > 0 {
        lemma_bytes_order(a.skip(1), b.skip(1), c.skip(1));
    }
}

proof fn lemma_ascending(v: Seq<Seq<char>>, i: int, j: int)
    requires
        ascending(v),
        0 <= i < j < v.len(),
    ensures
        text_lt(v[i], v[j]),
    decreases j,
{
    assert(text_lt(v[j - 1], v[j - 1 + 1]));
    if i < j - 1 {
        lemma_ascending(v, i, j - 1);
        lemma_bytes_order(encode_utf8(v[i]), encode_utf8(v[j - 1]), encode_utf8(v[j]));
    }
}

/// The set of an ascending list without its last text.
proof fn lemma_without_last(v: Seq<Seq<char>>)
    requires
        ascending(v),
        v.len() > 0,
    ensures
        ascending(v.drop_last()),
        v.drop_last().to_set() == v.to_set().remove(v.last()),
{
    let d = v.drop_last();
    assert forall|i: int| 0 <= i < d.len() - 1 implies text_lt(#[trigger] d[i], d[i + 1]) by {
        assert(text_lt(v[i], v[i + 1]));
    }
    assert forall|x: Seq<char>| d.to_set().contains(x) == v.to_set().remove(v.last()).contains(x) by {
        if d.contains(x) {
            let i = choose|i: int| 0 <= i < d.len() && d[i] == x;
            assert(v[i] == x);
            lemma_ascending(v, i, v.len() - 1);
            lemma_bytes_order(encode_utf8(x), encode_utf8(x), encode_utf8(x));
        }
        if v.contains(x) && x != v.last() {
            let i = choose|i: int| 0 <= i < v.len() && v[i] == x;
            assert(d[i] == x);
        }
    }
    assert(d.to_set() =~= v.to_set().remove(v.last()));
}

/// A set of texts has one ascending list.
proof fn lemma_one_order(a: Seq<Seq<char>>, b: Seq<Seq<char>>)
    requires
        ascending(a),
        ascending(b),
        a.to_set() == b.to_set(),
    ensures
        a == b,
    decreases a.len(),
{
    if a.len() == 0 {
        if b.len() > 0 {
            assert(b.to_set().contains(b[0]));
        }
    } else {
        assert(a.to_set().contains(a[0]));
        assert(b.len() > 0);
        assert(a.to_set().contains(a.last()) && b.to_set().contains(b.last()));
        let k = choose|k: int| 0 <= k < b.len() && b[k] == a.last();
        let m = choose|m: int| 0 <= m < a.len() && a[m] == b.last();
        if k < b.len() - 1 {
            lemma_ascending(b, k, b.len() - 1);
            if m < a.len() - 1 {
                lemma_ascending(a, m, a.len() - 1);
            }
            lemma_bytes_order(encode_utf8(a.last()), encode_utf8(b.last()), encode_utf8(a.last()));
        }
        assert(a.last() == b.last());
        lemma_without_last(a);
        lemma_without_last(b);
        lemma_one_order(a.drop_last(), b.drop_last());
        assert(a =~= a.drop_last().push(a.last()));
        assert(b =~= b.drop_last().push(b.last()));
    }
}

spec fn is_canonical(k: Seq<char>) -> bool {
    client_key(k) == Some(k)
}

proof fn lemma_keys_canonical(entries: Seq<Seq<char>>)
    ensures
        forall|k: Seq<char>| #[trigger] client_keys(entries).contains(k) ==> is_canonical(k),
    decreases entries.len(),
{
    if entries.len() > 0 {
        let rest = entries.drop_last();
        lemma_keys_canonical(rest);
        client_keys_are_canonical(entries.last());
        let f = |e: Seq<char>|
            match client_key(e) {
                Some(k) => seq![k],
                None => seq![],
            };
        assert(client_keys(entries) == client_keys(rest) + f(entries.last()));
        assert forall|k: Seq<char>| #[trigger] client_keys(entries).contains(k) implies is_canonical(k) by {
            let i = choose|i: int| 0 <= i < client_keys(entries).len() && client_keys(entries)[i] == k;
            if i < client_keys(rest).len() {
                assert(client_keys(rest)[i] == k);
                assert(client_keys(rest).contains(k));
            }
        }
    }
}

proof fn lemma_canonical_keys(entries: Seq<Seq<char>>)
    requires
        forall|i: int| 0 <= i < entries.len() ==> is_canonical(#[trigger] entries[i]),
    ensures
        client_keys(entries) == entries,
    decreases entries.len(),
{
    if entries.len() > 0 {
        let rest = entries.drop_last();
        assert forall|i: int| 0 <= i < rest.len() implies is_canonical(#[trigger] rest[i]) by {
            assert(is_canonical(entries[i]));
        }
        lemma_canonical_keys(rest);
        let last = entries.last();
        assert(is_canonical(entries[entries.len() - 1]));
        let f = |e: Seq<char>|
            match client_key(e) {
                Some(k) => seq![k],
                None => seq![],
            };
        assert(client_keys(entries) == client_keys(rest) + f(last));
        assert(f(last) == seq![last]);
        assert(rest + seq![last] =~= entries);
    } else {
        assert(entries =~= Seq::<Seq<char>>::empty());
    }
}

/// Bypassing clients in their canonical form stay as they are.
pub proof fn bypassing_clients_are_canonical(c: BlocklistConfig, r: BlocklistConfig, again: BlocklistConfig)
    requires
        normal_blocklist(c, r),
        normal_blocklist(r, again),
    ensures
        texts(again.client_bypass@) == texts(r.client_bypass@),
{
    let keys = texts(r.client_bypass@);
    lemma_keys_canonical(texts(c.client_bypass@));
    assert forall|i: int| 0 <= i < keys.len() implies is_canonical(#[trigger] keys[i]) by {
        assert(keys.to_set().contains(keys[i]));
        assert(client_keys(texts(c.client_bypass@)).contains(keys[i]));
    }
    lemma_canonical_keys(keys);
    lemma_one_order(texts(again.client_bypass@), keys);
}

}
