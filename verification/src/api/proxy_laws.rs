//! Which routes are accepted, and what becomes of their secrets.
use vstd::prelude::*;
use vstd::string::*;

use crate::api::proxy::{
    egress_fault, egresses_fault, fault, found_by, is_meant, lasting_identity, previous, redacted_egress,
    restored_egress, restored_from, rule_fault, rules_fault, verdict_on, Identity, Verdict,
};
use crate::api::wg_conf::{changed, changed_lines, field_value, lead, public_key, trail, KeyChange};
use crate::config::{egress_id, egress_ids, EgressConfig, ProxyConfig, RuleConfig};
use crate::error::config_error;
use crate::text;
use crate::text::{after, before, lines, lower, split, trim, trim_start};

verus! {

/// An egress of which connections can be made: a direct one, one that evades inspection, a
/// SOCKS5 proxy with address and port, or a WireGuard tunnel with a configuration that can
/// be read.
pub open spec fn complete(e: EgressConfig, conf_ok: bool) -> bool {
    let kind = lower(trim(e.kind@));
    ||| kind == "direct"@
    ||| kind == "evasion"@
    ||| kind == "socks5"@ && e.address is Some && trim(e.address->0@).len() > 0 && e.port is Some
    ||| kind == "wireguard"@ && e.config is Some && trim(e.config->0@).len() > 0 && conf_ok
}

/// An egress with an identifier of its own, of which connections can be made.
pub open spec fn usable(es: Seq<EgressConfig>, conf_ok: Seq<bool>, i: int) -> bool {
    &&& lower(trim(es[i].id@)).len() > 0
    &&& forall|j: int| 0 <= j < i ==> lower(trim((#[trigger] es[j]).id@)) != lower(trim(es[i].id@))
    &&& complete(es[i], conf_ok[i])
}

/// A rule with a pattern and an egress that there is.
pub open spec fn leads_somewhere(es: Seq<EgressConfig>, r: RuleConfig) -> bool {
    &&& trim(r.pattern@).len() > 0
    &&& exists|i: int| 0 <= i < es.len() && lower(trim((#[trigger] es[i]).id@)) == lower(trim(r.egress@))
}

proof fn lemma_ids(es: Seq<EgressConfig>, id: Seq<char>)
    ensures
        egress_ids(es).contains(id) <==> exists|i: int| 0 <= i < es.len() && lower(trim((#[trigger] es[i]).id@)) == id,
{
    let m = es.map_values(|e: EgressConfig| egress_id(e));
    if m.contains(id) {
        let i = choose|i: int| 0 <= i < m.len() && m[i] == id;
        assert(lower(trim(es[i].id@)) == id);
    }
    if exists|i: int| 0 <= i < es.len() && lower(trim((#[trigger] es[i]).id@)) == id {
        let i = choose|i: int| 0 <= i < es.len() && lower(trim((#[trigger] es[i]).id@)) == id;
        assert(m[i] == id);
    }
}

proof fn lemma_usable(es: Seq<EgressConfig>, conf_ok: Seq<bool>, i: int)
    requires
        0 <= i < es.len(),
    ensures
        egress_fault(es, conf_ok, i) is None <==> usable(es, conf_ok, i),
{
    lemma_ids(es.take(i), egress_id(es[i]));
    if exists|j: int| 0 <= j < i && lower(trim((#[trigger] es[j]).id@)) == lower(trim(es[i].id@)) {
        let j = choose|j: int| 0 <= j < i && lower(trim((#[trigger] es[j]).id@)) == lower(trim(es[i].id@));
        assert(es.take(i)[j] == es[j]);
    }
    if egress_ids(es.take(i)).contains(egress_id(es[i])) {
        let j = choose|j: int|
            0 <= j < es.take(i).len() && lower(trim((#[trigger] es.take(i)[j]).id@)) == egress_id(es[i]);
        assert(es[j] == es.take(i)[j]);
    }
    reveal_strlit("direct");
    reveal_strlit("evasion");
    reveal_strlit("socks5");
    reveal_strlit("wireguard");
    assert("direct"@.len() == 6 && "evasion"@.len() == 7 && "socks5"@.len() == 6 && "wireguard"@.len() == 9);
    assert("direct"@[0] != "socks5"@[0]);
}

proof fn lemma_egresses(es: Seq<EgressConfig>, conf_ok: Seq<bool>, i: int)
    requires
        0 <= i <= es.len(),
    ensures
        match egresses_fault(es, conf_ok, i) {
            None => forall|j: int| i <= j < es.len() ==> usable(es, conf_ok, j),
            Some(p) => exists|j: int|
                i <= j < es.len() && !#[trigger] usable(es, conf_ok, j) && Some(p) == egress_fault(es, conf_ok, j) && forall|
                    k: int,
                |
                    i <= k < j ==> #[trigger] usable(es, conf_ok, k),
        },
    decreases es.len() - i,
{
    if i < es.len() {
        lemma_usable(es, conf_ok, i);
        if egress_fault(es, conf_ok, i) is Some {
            assert(!usable(es, conf_ok, i));
        } else {
            lemma_egresses(es, conf_ok, i + 1);
        }
    }
}

/// Where nothing is found no item gives anything.
pub proof fn lemma_nothing_found<A, B>(items: Seq<A>, i: int, f: spec_fn(A) -> Option<B>)
    requires
        text::first_found(items, f) is None,
        0 <= i < items.len(),
    ensures
        f(items[i]) is None,
    decreases items.len(),
{
    if i < items.len() - 1 {
        lemma_nothing_found(items.drop_last(), i, f);
    }
}

/// Routes are accepted exactly if every egress is usable and every rule leads somewhere.
pub proof fn routes_are_accepted_if_usable(c: ProxyConfig, conf_ok: Seq<bool>, v: Verdict)
    requires
        conf_ok.len() == c.egresses@.len(),
        verdict_on(fault(c, conf_ok), v),
    ensures
        v is Valid <==> (forall|i: int| 0 <= i < c.egresses@.len() ==> usable(c.egresses@, conf_ok, i)) && (forall|i: int|
            0 <= i < c.rules@.len() ==> leads_somewhere(c.egresses@, #[trigger] c.rules@[i])),
{
    let es = c.egresses@;
    let ids = egress_ids(es);
    lemma_egresses(es, conf_ok, 0);
    let f = |r: RuleConfig| rule_fault(ids, r);
    assert forall|i: int| 0 <= i < c.rules@.len() implies (f(#[trigger] c.rules@[i]) is None <==> leads_somewhere(
        es,
        c.rules@[i],
    )) by {
        lemma_ids(es, lower(trim(c.rules@[i].egress@)));
    }
    if forall|i: int| 0 <= i < c.rules@.len() ==> leads_somewhere(es, #[trigger] c.rules@[i]) {
        assert forall|i: int| 0 <= i < c.rules@.len() implies f(#[trigger] c.rules@[i]) is None by {
            assert(leads_somewhere(es, c.rules@[i]));
        }
        text::lemma_none_found(c.rules@, f);
    } else {
        let i = choose|i: int| 0 <= i < c.rules@.len() && !leads_somewhere(es, #[trigger] c.rules@[i]);
        if rules_fault(ids, c.rules@) is None {
            lemma_nothing_found(c.rules@, i, f);
        }
    }
}

/// The first egress that is not usable is named in the refusal, with what it lacks.
pub proof fn unusable_egresses_are_named(c: ProxyConfig, conf_ok: Seq<bool>, v: Verdict, i: int)
    requires
        conf_ok.len() == c.egresses@.len(),
        verdict_on(fault(c, conf_ok), v),
        0 <= i < c.egresses@.len(),
        !usable(c.egresses@, conf_ok, i),
        forall|j: int| 0 <= j < i ==> #[trigger] usable(c.egresses@, conf_ok, j),
    ensures
        ({
            let e = c.egresses@[i];
            let kind = lower(trim(e.kind@));
            let known = egress_ids(c.egresses@.take(i)).contains(lower(trim(e.id@)));
            &&& lower(trim(e.id@)).len() == 0 ==> v is Invalid && config_error(v->Invalid_0, "an egress is missing its id"@)
            &&& lower(trim(e.id@)).len() > 0 && known ==> v is Invalid && config_error(
                v->Invalid_0,
                "duplicate egress id '"@ + e.id@ + "'"@,
            )
            &&& lower(trim(e.id@)).len() > 0 && !known && kind == "socks5"@ ==> v is Invalid && config_error(
                v->Invalid_0,
                "socks5 egress '"@ + e.id@ + "' requires an address and port"@,
            )
            &&& lower(trim(e.id@)).len() > 0 && !known && kind == "wireguard"@ ==> (if e.config is None || trim(
                e.config->0@,
            ).len() == 0 {
                v is Invalid && config_error(
                    v->Invalid_0,
                    "wireguard egress '"@ + e.id@ + "' requires a config (.conf text)"@,
                )
            } else {
                v is InvalidConf && v->InvalidConf_0 == i
            })
            &&& lower(trim(e.id@)).len() > 0 && !known && kind != "socks5"@ && kind != "wireguard"@ ==> v is Invalid
                && config_error(v->Invalid_0, "egress '"@ + e.id@ + "': unknown kind '"@ + kind + "'"@)
        }),
{
    let es = c.egresses@;
    lemma_egresses(es, conf_ok, 0);
    lemma_usable(es, conf_ok, i);
    let p = egresses_fault(es, conf_ok, 0);
    assert(p is Some) by {
        assert(!usable(es, conf_ok, i));
    }
    let j = choose|j: int|
        0 <= j < es.len() && !#[trigger] usable(es, conf_ok, j) && p == egress_fault(es, conf_ok, j) && forall|k: int|
            0 <= k < j ==> #[trigger] usable(es, conf_ok, k);
    assert(i == j);
    reveal_strlit("direct");
    reveal_strlit("evasion");
    reveal_strlit("socks5");
    reveal_strlit("wireguard");
    assert("direct"@.len() == 6 && "evasion"@.len() == 7 && "socks5"@.len() == 6 && "wireguard"@.len() == 9);
    assert("direct"@[0] != "socks5"@[0]);
}

/// An egress is shown without its password, and with the private key of its tunnel behind
/// a mask; all else is shown as it is.
pub proof fn shown_egresses_hold_no_secrets(e: EgressConfig, r: EgressConfig)
    requires
        redacted_egress(e, r),
    ensures
        r.password is None,
        r.id == e.id && r.kind == e.kind && r.address == e.address && r.port == e.port && r.username == e.username,
        lower(e.kind@) == "wireguard"@ && e.config is Some ==> r.config is Some && r.config->0@ == changed(
            e.config->0@,
            KeyChange::Mask,
        ),
        lower(e.kind@) != "wireguard"@ && e.config is Some ==> r.config is Some && r.config->0@ == e.config->0@,
        e.config is None ==> r.config is None,
{
}

/// Of a tunnel's configuration every line that sets the private key, in any case and
/// behind any white space, has the mask for its value; every other line stays.
pub proof fn private_keys_are_masked_line_by_line(conf: Seq<char>, i: int)
    requires
        0 <= i < split(conf, '\n').len(),
    ensures
        ({
            let l = split(conf, '\n')[i];
            let m = changed_lines(conf, KeyChange::Mask);
            &&& m.len() == split(conf, '\n').len()
            &&& changed(conf, KeyChange::Mask) == text::join(m, seq!['\n'])
            &&& "privatekey"@.is_prefix_of(lower(trim_start(l))) && after(l, '=') is Some ==> m[i] == before(l, '=')
                + seq!['='] + lead(after(l, '=')->0) + "********"@ + trail(after(l, '=')->0)
            &&& !"privatekey"@.is_prefix_of(lower(trim_start(l))) || after(l, '=') is None ==> m[i] == l
        }),
{
}

/// The value of a field is that of the first line that sets it, without white space around
/// it.
pub proof fn fields_have_the_value_of_their_first_line(conf: Seq<char>, field: Seq<char>, i: int)
    requires
        0 <= i < lines(conf).len(),
        field.is_prefix_of(lower(trim_start(lines(conf)[i]))),
        forall|j: int| 0 <= j < i ==> !field.is_prefix_of(lower(trim_start(#[trigger] lines(conf)[j]))),
    ensures
        field_value(conf, field) == (match after(lines(conf)[i], '=') {
            Some(v) => Some(trim(v)),
            None => None,
        }),
        field == "publickey"@ ==> public_key(conf) == field_value(conf, field),
{
    let f = |l: Seq<char>| crate::api::wg_conf::field_line(l, field);
    assert forall|j: int| 0 <= j < i implies f(#[trigger] lines(conf)[j]) is None by {}
    text::lemma_first_found_at(lines(conf), i, f);
}

/// Submitted passwords count, and all else that was submitted; a blank password of a SOCKS5
/// egress stands for the one that the egress of that identifier had.
pub proof fn submitted_values_count(old_es: Seq<EgressConfig>, e: EgressConfig, r: EgressConfig, i: int)
    requires
        restored_from(old_es, e, r),
    ensures
        r == (EgressConfig { password: r.password, config: r.config, ..e }),
        e.password is Some && e.password->0@.len() > 0 ==> r.password == e.password,
        lower(e.kind@) != "socks5"@ ==> r.password == e.password,
        lower(e.kind@) != "wireguard"@ ==> r.config == e.config,
        lower(e.kind@) == "socks5"@ && (e.password is None || e.password->0@.len() == 0) && 0 <= i < old_es.len()
            && old_es[i].id@ == lower(trim(e.id@)) && (forall|j: int|
            0 <= j < i ==> (#[trigger] old_es[j]).id@ != lower(trim(e.id@))) ==> r.password == old_es[i].password,
{
    let prev = choose|prev: Option<EgressConfig>|
        previous(old_es, e, egress_id(e), prev) && #[trigger] restored_egress(prev, e, r);
    let k = choose|k: Identity|
        {
            &&& k matches Identity::Id(x) && x@ == egress_id(e)
            &&& if #[trigger] found_by(old_es, k) is Some {
                prev == found_by(old_es, k)
            } else {
                (exists|j: Identity| lasting_identity(e, j) && prev == #[trigger] found_by(old_es, j)) || (prev is None
                    && forall|j: Identity| !#[trigger] lasting_identity(e, j))
            }
        };
    let f = |x: EgressConfig|
        if is_meant(x, k) {
            Some(x)
        } else {
            None
        };
    if 0 <= i < old_es.len() && old_es[i].id@ == lower(trim(e.id@)) && (forall|j: int|
        0 <= j < i ==> (#[trigger] old_es[j]).id@ != lower(trim(e.id@))) {
        assert forall|j: int| 0 <= j < i implies f(#[trigger] old_es[j]) is None by {}
        text::lemma_first_found_at(old_es, i, f);
    }
}

/// An egress that was given a new identifier keeps its password as long as its address and
/// port stay.
pub proof fn renamed_egresses_keep_their_password(old_es: Seq<EgressConfig>, e: EgressConfig, r: EgressConfig, i: int)
    requires
        restored_from(old_es, e, r),
        e.kind@ == "socks5"@,
        e.password is None,
        e.address is Some && e.port is Some,
        forall|j: int| 0 <= j < old_es.len() ==> (#[trigger] old_es[j]).id@ != lower(trim(e.id@)),
        0 <= i < old_es.len(),
        lower(old_es[i].kind@) == "socks5"@ && old_es[i].address is Some && old_es[i].address->0@ == e.address->0@
            && old_es[i].port == e.port,
        forall|j: int|
            0 <= j < i ==> lower((#[trigger] old_es[j]).kind@) != "socks5"@ || old_es[j].address is None
                || old_es[j].address->0@ != e.address->0@ || old_es[j].port != e.port,
    ensures
        r.password == old_es[i].password,
{
    reveal_strlit("socks5");
    reveal_strlit("wireguard");
    let s = "socks5"@;
    assert("wireguard"@.len() == 9 && s.len() == 6);
    assert(lower(s) =~= s);
    text::lemma_trimmed(s);
    let prev = choose|prev: Option<EgressConfig>|
        previous(old_es, e, egress_id(e), prev) && #[trigger] restored_egress(prev, e, r);
    let k = choose|k: Identity|
        {
            &&& k matches Identity::Id(x) && x@ == egress_id(e)
            &&& if #[trigger] found_by(old_es, k) is Some {
                prev == found_by(old_es, k)
            } else {
                (exists|j: Identity| lasting_identity(e, j) && prev == #[trigger] found_by(old_es, j)) || (prev is None
                    && forall|j: Identity| !#[trigger] lasting_identity(e, j))
            }
        };
    let f = |x: EgressConfig|
        if is_meant(x, k) {
            Some(x)
        } else {
            None
        };
    assert forall|j: int| 0 <= j < old_es.len() implies f(#[trigger] old_es[j]) is None by {}
    text::lemma_none_found(old_es, f);
    let own = Identity::Address(e.address->0, e.port->0);
    assert(lasting_identity(e, own));
    let m = choose|m: Identity| lasting_identity(e, m) && prev == #[trigger] found_by(old_es, m);
    let g = |x: EgressConfig|
        if is_meant(x, m) {
            Some(x)
        } else {
            None
        };
    assert forall|j: int| 0 <= j < i implies g(#[trigger] old_es[j]) is None by {}
    text::lemma_first_found_at(old_es, i, g);
}

/// A blank configuration of a WireGuard egress stands for the one that the egress of that
/// identifier had.
pub proof fn blank_configurations_stay(old_es: Seq<EgressConfig>, e: EgressConfig, r: EgressConfig, i: int)
    requires
        restored_from(old_es, e, r),
        lower(e.kind@) == "wireguard"@,
        e.config is None || trim(e.config->0@).len() == 0,
        0 <= i < old_es.len(),
        old_es[i].id@ == lower(trim(e.id@)),
        forall|j: int| 0 <= j < i ==> (#[trigger] old_es[j]).id@ != lower(trim(e.id@)),
        old_es[i].config is Some,
    ensures
        r.config is Some && r.config->0@ == old_es[i].config->0@,
{
    let prev = choose|prev: Option<EgressConfig>|
        previous(old_es, e, egress_id(e), prev) && #[trigger] restored_egress(prev, e, r);
    let k = choose|k: Identity|
        {
            &&& k matches Identity::Id(x) && x@ == egress_id(e)
            &&& if #[trigger] found_by(old_es, k) is Some {
                prev == found_by(old_es, k)
            } else {
                (exists|j: Identity| lasting_identity(e, j) && prev == #[trigger] found_by(old_es, j)) || (prev is None
                    && forall|j: Identity| !#[trigger] lasting_identity(e, j))
            }
        };
    let f = |x: EgressConfig|
        if is_meant(x, k) {
            Some(x)
        } else {
            None
        };
    assert forall|j: int| 0 <= j < i implies f(#[trigger] old_es[j]) is None by {}
    text::lemma_first_found_at(old_es, i, f);
    if e.config is None {
        assert(trim(Seq::<char>::empty()).len() == 0);
    }
}

}
