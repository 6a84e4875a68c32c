//! What the canonical form of a configuration keeps, drops and changes.
use vstd::prelude::*;
use vstd::string::*;

use crate::blocklist::decision_laws::lemma_flat_map_contains;
use crate::clients::client_key;
use crate::config::{
    client_keys, egress_id, egress_ids, is_default, kept_egresses, kept_rules, normal_config, normal_proxy, usable_rule,
    Config, EgressConfig, ProxyConfig, RuleConfig,
};
use crate::ip::{IpAddr, Ipv4};
use crate::text::{flat_map, lower, texts, trim, trim_end_char};

verus! {

/// A text that may be set: kept without blanks around it, and dropped where it is blank.
pub open spec fn kept_text(before: Option<String>, after: Option<String>) -> bool {
    match before {
        Some(t) if trim(t@).len() > 0 => after matches Some(u) && u@ == trim(t@),
        _ => after is None,
    }
}

/// The canonical form of a configuration keeps everything but the spelling: secrets and
/// addresses of pages lose blanks, the panel has a name in lower case without dots at its
/// end, or its usual one, and the clients that bypass blocking are named canonically.
pub proof fn canonical_configurations_keep_their_values(c: Config, r: Config)
    requires
        normal_config(c, r),
    ensures
        r.dns == c.dns,
        r.upstream == c.upstream,
        r.storage == c.storage,
        r.allowlist == c.allowlist,
        r.zones == c.zones,
        r.custom_records == c.custom_records,
        r.debug_logging == c.debug_logging,
        r.web_dir == c.web_dir,
        r.api.bind_addr == c.api.bind_addr,
        kept_text(c.api.api_key, r.api.api_key),
        kept_text(c.api.password_hash, r.api.password_hash),
        r.panel.enabled == c.panel.enabled,
        r.panel.ipv4 == c.panel.ipv4,
        kept_text(c.panel.url, r.panel.url),
        r.panel.domain@ == (if trim_end_char(trim(c.panel.domain@), '.').len() > 0 {
            lower(trim_end_char(trim(c.panel.domain@), '.'))
        } else {
            seq!['f', 'e', '.', 't', 'e']
        }),
        r.blocklist.enabled == c.blocklist.enabled,
        r.blocklist.decision_cache_size == c.blocklist.decision_cache_size,
        r.blocklist.lists == c.blocklist.lists,
        r.blocklist.wildcard_block == c.blocklist.wildcard_block,
        r.blocklist.whitelist == c.blocklist.whitelist,
        r.blocklist.profiles == c.blocklist.profiles,
        forall|k: Seq<char>|
            texts(r.blocklist.client_bypass@).contains(k) <==> exists|i: int|
                0 <= i < c.blocklist.client_bypass@.len() && client_key((#[trigger] c.blocklist.client_bypass@[i])@)
                    == Some(k),
        r.proxy.enabled == c.proxy.enabled,
        r.proxy.http_port == c.proxy.http_port,
        r.proxy.https_port == c.proxy.https_port,
        r.proxy.advertise_ipv4 == c.proxy.advertise_ipv4,
        r.proxy.advertise_ipv6 == c.proxy.advertise_ipv6,
        r.proxy.max_connections == c.proxy.max_connections,
        kept_text(c.proxy.alert_webhook, r.proxy.alert_webhook),
{
    reveal_strlit("fe.te");
    assert("fe.te"@ =~= seq!['f', 'e', '.', 't', 'e']);
    let entries = c.blocklist.client_bypass@;
    let tv = texts(entries);
    let f = |e: Seq<char>|
        match client_key(e) {
            Some(k) => seq![k],
            None => seq![],
        };
    assert(client_keys(tv) == flat_map(tv, f));
    assert forall|k: Seq<char>| texts(r.blocklist.client_bypass@).contains(k) <==> exists|i: int|
        0 <= i < entries.len() && client_key((#[trigger] entries[i])@) == Some(k) by {
        lemma_flat_map_contains(tv, f, k);
        let kept = texts(r.blocklist.client_bypass@);
        assert(kept.to_set().contains(k) == kept.contains(k));
        assert(client_keys(tv).to_set().contains(k) == client_keys(tv).contains(k));
        if client_keys(tv).contains(k) {
            let i = choose|i: int| 0 <= i < tv.len() && f(#[trigger] tv[i]).contains(k);
            assert(tv[i] == entries[i]@);
            assert(client_key(entries[i]@) == Some(k));
        }
        if exists|i: int| 0 <= i < entries.len() && client_key((#[trigger] entries[i])@) == Some(k) {
            let i = choose|i: int| 0 <= i < entries.len() && client_key((#[trigger] entries[i])@) == Some(k);
            assert(tv[i] == entries[i]@);
            assert(f(tv[i])[0] == k);
            assert(f(tv[i]).contains(k));
        }
    }
}

/// The egress has an identifier, and none after it has the same.
pub open spec fn counts_in(es: Seq<EgressConfig>, i: int) -> bool {
    &&& trim(es[i].id@).len() > 0
    &&& forall|j: int| i < j < es.len() ==> lower(trim((#[trigger] es[j]).id@)) != lower(trim(es[i].id@))
}

/// An egress is kept exactly if it has an identifier and none after it has the same one;
/// and those that are kept stay in order.
pub proof fn last_egresses_of_an_identifier_count(es: Seq<EgressConfig>, e: EgressConfig)
    ensures
        kept_egresses(es).contains(e) <==> exists|i: int| 0 <= i < es.len() && #[trigger] es[i] == e && counts_in(es, i),
        kept_egresses(es).len() <= es.len(),
    decreases es.len(),
{
    if es.len() > 0 {
        let rest = es.skip(1);
        last_egresses_of_an_identifier_count(rest, e);
        let ks = kept_egresses(rest);
        let whole = kept_egresses(es);
        let all = rest.map_values(|x: EgressConfig| egress_id(x));
        let first = egress_id(es[0]).len() > 0 && !egress_ids(rest).contains(egress_id(es[0]));
        assert(first == counts_in(es, 0)) by {
            if egress_ids(rest).contains(egress_id(es[0])) {
                let k = choose|k: int| 0 <= k < all.len() && all[k] == egress_id(es[0]);
                assert(es[k + 1] == rest[k]);
                assert(lower(trim(es[k + 1].id@)) == lower(trim(es[0].id@)));
            } else {
                assert forall|j: int| 0 < j < es.len() implies lower(trim((#[trigger] es[j]).id@)) != lower(
                    trim(es[0].id@),
                ) by {
                    assert(all[j - 1] == egress_id(es[j]));
                    assert(egress_ids(rest).contains(all[j - 1]));
                }
            }
        }
        assert forall|i: int| 0 <= i < rest.len() implies counts_in(rest, i) == #[trigger] counts_in(es, i + 1) by {
            if counts_in(rest, i) {
                assert forall|j: int| i + 1 < j < es.len() implies lower(trim((#[trigger] es[j]).id@)) != lower(
                    trim(es[i + 1].id@),
                ) by {
                    assert(rest[j - 1] == es[j]);
                }
            }
            if counts_in(es, i + 1) {
                assert forall|j: int| i < j < rest.len() implies lower(trim((#[trigger] rest[j]).id@)) != lower(
                    trim(rest[i].id@),
                ) by {
                    assert(es[j + 1] == rest[j]);
                }
            }
        }
        if ks.contains(e) {
            let i = choose|i: int| 0 <= i < rest.len() && #[trigger] rest[i] == e && counts_in(rest, i);
            assert(es[i + 1] == e && counts_in(es, i + 1));
            let k = choose|k: int| 0 <= k < ks.len() && ks[k] == e;
            if first {
                assert(whole[k + 1] == e);
            }
        }
        if first && e == es[0] {
            assert(whole[0] == e);
        }
        if whole.contains(e) {
            let k = choose|k: int| 0 <= k < whole.len() && whole[k] == e;
            if first && k > 0 {
                assert(ks[k - 1] == e);
            }
        }
        if exists|i: int| 0 <= i < es.len() && #[trigger] es[i] == e && counts_in(es, i) {
            let i = choose|i: int| 0 <= i < es.len() && #[trigger] es[i] == e && counts_in(es, i);
            if i > 0 {
                assert(rest[i - 1] == e);
                assert(counts_in(rest, i - 1) == counts_in(es, i - 1 + 1));
            }
        }
    }
}

/// A rule is kept exactly if its pattern is more than blanks and dots and it names one of
/// the given egresses.
pub proof fn rules_with_an_egress_are_kept(rs: Seq<RuleConfig>, ids: Set<Seq<char>>, x: RuleConfig)
    ensures
        kept_rules(rs, ids).contains(x) <==> rs.contains(x) && trim_end_char(trim(x.pattern@), '.').len() > 0
            && ids.contains(lower(trim(x.egress@))),
    decreases rs.len(),
{
    if rs.len() > 0 {
        let rest = rs.skip(1);
        rules_with_an_egress_are_kept(rest, ids, x);
        let ks = kept_rules(rest, ids);
        let whole = kept_rules(rs, ids);
        assert(rs.contains(x) <==> rest.contains(x) || rs[0] == x) by {
            if rest.contains(x) {
                let i = choose|i: int| 0 <= i < rest.len() && rest[i] == x;
                assert(rs[i + 1] == x);
            }
            if rs.contains(x) {
                let i = choose|i: int| 0 <= i < rs.len() && rs[i] == x;
                if i > 0 {
                    assert(rest[i - 1] == x);
                }
            }
        }
        if usable_rule(rs[0], ids) {
            if ks.contains(x) {
                let k = choose|k: int| 0 <= k < ks.len() && ks[k] == x;
                assert(whole[k + 1] == x);
            }
            if rs[0] == x {
                assert(whole[0] == x);
            }
            if whole.contains(x) {
                let k = choose|k: int| 0 <= k < whole.len() && whole[k] == x;
                if k > 0 {
                    assert(ks[k - 1] == x);
                }
            }
        }
    }
}

/// In the canonical form egresses and rules keep what they say; their identifiers,
/// patterns and kinds are in lower case and without blanks, and an egress without a name
/// is called by its identifier.
pub proof fn canonical_routes_keep_their_values(c: ProxyConfig, r: ProxyConfig, i: int, k: int)
    requires
        normal_proxy(c, r),
    ensures
        r.egresses@.len() == kept_egresses(c.egresses@).len(),
        0 <= i < r.egresses@.len() ==> ({
            let e = kept_egresses(c.egresses@)[i];
            let x = r.egresses@[i];
            &&& x.id@ == lower(trim(e.id@))
            &&& x.kind@ == lower(trim(e.kind@))
            &&& x.name@ == (if trim(e.name@).len() > 0 {
                trim(e.name@)
            } else {
                lower(trim(e.id@))
            })
            &&& x.enabled == e.enabled && x.address == e.address && x.port == e.port
            &&& x.username == e.username && x.password == e.password && x.config == e.config
            &&& x.seg_position == e.seg_position && x.buffer_kb == e.buffer_kb && x.tx_buffer_kb == e.tx_buffer_kb
        }),
        0 <= k < r.rules@.len() ==> ({
            let o = kept_rules(c.rules@, crate::config::plain_ids(r.egresses@))[k];
            let x = r.rules@[k];
            &&& x.pattern@ == lower(trim_end_char(trim(o.pattern@), '.'))
            &&& x.egress@ == lower(trim(o.egress@))
            &&& x.fail_closed == o.fail_closed
            &&& x.clients == o.clients
        }),
        r.rules@.len() == kept_rules(c.rules@, crate::config::plain_ids(r.egresses@)).len(),
{
    if 0 <= i < r.egresses@.len() {
        assert(crate::config::normal_egress(kept_egresses(c.egresses@)[i], r.egresses@[i]));
    }
    if 0 <= k < r.rules@.len() {
        assert(crate::config::normal_rule(
            kept_rules(c.rules@, crate::config::plain_ids(r.egresses@))[k],
            r.rules@[k],
        ));
    }
}

/// Without a configuration the server listens for queries on port 53 at every address and
/// for its panel on loopback only, blocks, asks two public resolvers, keeps the client's
/// subnet to itself, and lets everybody on the machine in.
pub proof fn defaults_are_safe(c: Config, data_dir: Seq<char>)
    requires
        is_default(c, data_dir),
    ensures
        c.dns.bind_addr.port == 53,
        c.dns.bind_addr.ip == IpAddr::V4(Ipv4 { a: 0, b: 0, c: 0, d: 0 }),
        c.api.bind_addr.port == 8080,
        c.api.bind_addr.ip matches IpAddr::V4(v) && v.a == 127,
        c.api.api_key is None && c.api.password_hash is None,
        c.blocklist.enabled && c.blocklist.lists@.len() == 1 && c.blocklist.lists@[0].enabled,
        c.blocklist.profiles@.len() == 0 && c.blocklist.whitelist@.len() == 0 && c.blocklist.client_bypass@.len() == 0
            && c.blocklist.wildcard_block@.len() == 0,
        c.blocklist.decision_cache_size == 20_000,
        c.allowlist.domains@.len() == 0 && c.allowlist.lists@.len() == 0,
        c.dns.strip_ecs && c.dns.dnssec,
        c.dns.min_ttl == 60 && c.dns.max_ttl == 3600 && c.dns.cache_size == 10_000 && c.dns.cache_max_mb == 8,
        c.upstream@.len() == 2,
        forall|i: int| 0 <= i < 2 ==> (#[trigger] c.upstream@[i]) is Plain && c.upstream@[i]->Plain_port == 53,
        !c.proxy.enabled && c.proxy.egresses@.len() == 0 && c.proxy.rules@.len() == 0 && c.proxy.max_connections == 128,
        c.proxy.http_port == 80 && c.proxy.https_port == 443,
        c.panel.enabled && c.panel.domain@ == seq!['f', 'e', '.', 't', 'e'],
        c.storage.log_retention_days == 0,
        c.zones@.len() == 0 && c.custom_records@.len() == 0,
        c.debug_logging && c.web_dir is None,
{
    reveal_strlit("fe.te");
    assert("fe.te"@ =~= seq!['f', 'e', '.', 't', 'e']);
    assert forall|i: int| 0 <= i < 2 implies (#[trigger] c.upstream@[i]) is Plain && c.upstream@[i]->Plain_port == 53 by {
        if i == 0 {
            assert(crate::config::plain_resolver(c.upstream@[0], "8.8.8.8"@));
        } else {
            assert(crate::config::plain_resolver(c.upstream@[1], "8.8.4.4"@));
        }
    }
}

}
