//! The routing configuration as it is shown and replaced: secrets are not shown,
//! and those that come back blank or masked are restored.
use vstd::prelude::*;
use vstd::hash_set::StringHashSet;
use vstd::slice::*;
use vstd::string::*;

use crate::api::wg_conf;
use crate::api::wg_conf::{changed, private_key, public_key, restores, KeyChange};
use crate::config::{egress_id, egress_ids, opt_text, EgressConfig, ProxyConfig, RuleConfig};
use crate::error::{config_error, FeriteError};
use crate::text;
use crate::text::{first_found, lower, trim};

verus! {

/// The text of an optional string; empty where there is none.
pub open spec fn text_or_empty(s: Option<String>) -> Seq<char> {
    match s {
        Some(t) => t@,
        None => seq![],
    }
}

/// The kind of the egress, in any case.
pub open spec fn is_kind(e: EgressConfig, kind: Seq<char>) -> bool {
    lower(e.kind@) == kind
}

fn has_kind(e: &EgressConfig, kind: &str) -> (r: bool)
    ensures
        r == is_kind(*e, kind@),
{
    let cs = text::chars_of(e.kind.as_str());
    let low = text::to_lower(cs.as_slice());
    text::is_text(low.as_slice(), kind)
}

fn lower_trimmed(s: &str) -> (r: String)
    ensures
        r@ == lower(trim(s@)),
{
    let cs = text::chars_of(s);
    let low = text::to_lower(text::trimmed(cs.as_slice()));
    text::string_of(low.as_slice())
}

fn is_blank(s: &Option<String>) -> (r: bool)
    ensures
        r == (trim(text_or_empty(*s)).len() == 0),
{
    match s {
        Some(t) => {
            let cs = text::chars_of(t.as_str());
            text::trimmed(cs.as_slice()).len() == 0
        },
        None => true,
    }
}

/// The egress as it is shown: without its password, and with a mask for the private
/// key of a tunnel.
pub open spec fn redacted_egress(e: EgressConfig, r: EgressConfig) -> bool {
    &&& r == (EgressConfig { password: None, config: r.config, ..e })
    &&& opt_text(r.config) == (if is_kind(e, "wireguard"@) && e.config is Some {
        Some(changed(e.config->0@, KeyChange::Mask))
    } else {
        opt_text(e.config)
    })
}

fn redact_egress(e: &EgressConfig) -> (r: EgressConfig)
    ensures
        redacted_egress(*e, r),
{
    let mut r = e.clone();
    r.password = None;
    if has_kind(e, "wireguard") {
        if let Some(c) = &e.config {
            r.config = Some(wg_conf::mask_wg_key(c.as_str()));
        }
    }
    r
}

/// The configuration as it is shown.
pub fn redacted(p: ProxyConfig) -> (r: ProxyConfig)
    ensures
        r == (ProxyConfig { egresses: r.egresses, ..p }),
        r.egresses@.len() == p.egresses@.len(),
        forall|i: int| 0 <= i < r.egresses@.len() ==> redacted_egress(p.egresses@[i], #[trigger] r.egresses@[i]),
{
    let mut out: Vec<EgressConfig> = Vec::new();
    let mut i: usize = 0;
    while i < p.egresses.len()
        invariant
            i <= p.egresses@.len(),
            out@.len() == i,
            forall|j: int| 0 <= j < i ==> redacted_egress(p.egresses@[j], #[trigger] out@[j]),
        decreases p.egresses@.len() - i,
    {
        let e = redact_egress(&p.egresses[i]);
        out.push(e);
        i = i + 1;
    }
    ProxyConfig { egresses: out, ..p }
}

/// By what an egress is found again.
#[derive(Debug)]
pub enum Identity {
    Id(String),
    /// The public key of a tunnel's peer.
    Peer(String),
    /// The address and port of a proxy.
    Address(String, u16),
}

/// The egress is the one meant.
pub open spec fn is_meant(e: EgressConfig, i: Identity) -> bool {
    match i {
        Identity::Id(id) => e.id@ == id@,
        Identity::Peer(key) => is_kind(e, "wireguard"@) && public_key(text_or_empty(e.config)) == Some(key@),
        Identity::Address(address, port) => is_kind(e, "socks5"@) && opt_text(e.address) == Some(address@) && e.port
            == Some(port),
    }
}

/// The first egress that is meant.
pub open spec fn found_by(es: Seq<EgressConfig>, i: Identity) -> Option<EgressConfig> {
    first_found(
        es,
        |e: EgressConfig|
            if is_meant(e, i) {
                Some(e)
            } else {
                None
            },
    )
}

fn matches_identity(e: &EgressConfig, i: &Identity) -> (r: bool)
    ensures
        r == is_meant(*e, *i),
{
    match i {
        Identity::Id(id) => text::str_same(e.id.as_str(), id.as_str()),
        Identity::Peer(key) => has_kind(e, "wireguard") && match peer_key(&e.config) {
            Some(k) => text::str_same(k.as_str(), key.as_str()),
            None => false,
        },
        Identity::Address(address, port) => has_kind(e, "socks5") && (match &e.address {
            Some(a) => text::str_same(a.as_str(), address.as_str()),
            None => false,
        }) && (match e.port {
            Some(p) => p == *port,
            None => false,
        }),
    }
}

fn peer_key(config: &Option<String>) -> (r: Option<String>)
    ensures
        opt_text(r) == public_key(text_or_empty(*config)),
{
    match config {
        Some(c) => wg_conf::wg_public_key(c.as_str()),
        None => {
            let empty = String::new();
            assert(empty@ =~= seq![]);
            wg_conf::wg_public_key(empty.as_str())
        },
    }
}

fn find_egress<'a>(es: &'a Vec<EgressConfig>, i: &Identity) -> (r: Option<&'a EgressConfig>)
    ensures
        (match r {
            Some(e) => Some(*e),
            None => None,
        }) == found_by(es@, *i),
{
    let ghost f = |e: EgressConfig|
        if is_meant(e, *i) {
            Some(e)
        } else {
            None
        };
    let mut k: usize = 0;
    while k < es.len()
        invariant
            k <= es@.len(),
            f == (|e: EgressConfig|
                if is_meant(e, *i) {
                    Some(e)
                } else {
                    None
                }),
            first_found(es@.take(k as int), f) is None,
        decreases es@.len() - k,
    {
        proof {
            assert(es@.take(k + 1) =~= es@.take(k as int).push(es@[k as int]));
            text::lemma_first_found_push(es@.take(k as int), es@[k as int], f);
            text::lemma_first_found_prefix(es@.take(k + 1), es@.skip(k + 1), f);
            assert(es@.take(k + 1) + es@.skip(k + 1) =~= es@);
        }
        if matches_identity(&es[k], i) {
            return Some(&es[k]);
        }
        k = k + 1;
    }
    assert(es@.take(es@.len() as int) =~= es@);
    None
}

/// What an egress is found again by when its identifier is a new one.
pub open spec fn lasting_identity(e: EgressConfig, i: Identity) -> bool {
    if lower(trim(e.kind@)) == "wireguard"@ {
        i matches Identity::Peer(key) && public_key(text_or_empty(e.config)) == Some(key@)
    } else {
        &&& lower(trim(e.kind@)) == "socks5"@
        &&& i matches Identity::Address(address, port) && opt_text(e.address) == Some(address@) && e.port == Some(port)
    }
}

/// `r` is the egress as it was before: the one with the identifier, or else, for a
/// tunnel, the one with the same peer, and for a proxy, the one at the same address.
pub open spec fn previous(old_es: Seq<EgressConfig>, e: EgressConfig, id: Seq<char>, r: Option<EgressConfig>) -> bool {
    exists|i: Identity|
        {
            &&& i matches Identity::Id(x) && x@ == id
            &&& if #[trigger] found_by(old_es, i) is Some {
                r == found_by(old_es, i)
            } else {
                (exists|j: Identity| lasting_identity(e, j) && r == #[trigger] found_by(old_es, j)) || (r is None
                    && forall|j: Identity| !#[trigger] lasting_identity(e, j))
            }
        }
}

fn lasting(e: &EgressConfig) -> (r: Option<Identity>)
    ensures
        match r {
            Some(i) => lasting_identity(*e, i),
            None => forall|j: Identity| !#[trigger] lasting_identity(*e, j),
        },
{
    let kind = lower_trimmed(e.kind.as_str());
    if text::str_same(kind.as_str(), "wireguard") {
        return match peer_key(&e.config) {
            Some(k) => Some(Identity::Peer(k)),
            None => None,
        };
    }
    if text::str_same(kind.as_str(), "socks5") {
        if let Some(a) = &e.address {
            if let Some(p) = e.port {
                return Some(Identity::Address(a.clone(), p));
            }
        }
    }
    None
}

/// The egress as it was before, under its identifier or under another.
pub fn match_prev<'a>(old_es: &'a Vec<EgressConfig>, e: &EgressConfig, id: &str) -> (r: Option<&'a EgressConfig>)
    ensures
        previous(old_es@, *e, id@, match r {
            Some(p) => Some(*p),
            None => None,
        }),
{
    let by_id = Identity::Id(id.to_string());
    let found = find_egress(old_es, &by_id);
    if found.is_some() {
        assert(found_by(old_es@, by_id) is Some);
        return found;
    }
    assert(found_by(old_es@, by_id) is None);
    match lasting(e) {
        Some(i) => {
            let r = find_egress(old_es, &i);
            assert(lasting_identity(*e, i));
            r
        },
        None => None,
    }
}

/// The configuration that a tunnel keeps: the stored one where nothing was
/// submitted, or else the submitted one with its masked key restored.
pub open spec fn kept_conf(submitted: Seq<char>, stored: Seq<char>, r: Seq<char>) -> bool {
    if trim(submitted).len() == 0 {
        r == stored
    } else {
        exists|c: KeyChange| restores(c, stored) && r == #[trigger] changed(submitted, c)
    }
}

/// `r` is the submitted egress with the secrets that it had before, where they were
/// left blank or masked.
pub open spec fn restored_egress(prev: Option<EgressConfig>, e: EgressConfig, r: EgressConfig) -> bool {
    &&& r == (EgressConfig { password: r.password, config: r.config, ..e })
    &&& r.password == (if is_kind(e, "socks5"@) && text_or_empty(e.password).len() == 0 && prev is Some {
        prev->0.password
    } else {
        e.password
    })
    &&& if is_kind(e, "wireguard"@) && prev is Some && prev->0.config is Some {
        r.config is Some && kept_conf(text_or_empty(e.config), prev->0.config->0@, r.config->0@)
    } else {
        r.config == e.config
    }
}

fn restore_egress(prev: Option<&EgressConfig>, e: &EgressConfig) -> (r: EgressConfig)
    ensures
        restored_egress(
            match prev {
                Some(p) => Some(*p),
                None => None,
            },
            *e,
            r,
        ),
{
    let mut r = e.clone();
    if let Some(p) = prev {
        let p = p.clone();
        let blank = match &e.password {
            Some(w) => {
                let cs = text::chars_of(w.as_str());
                cs.len() == 0
            },
            None => true,
        };
        if has_kind(e, "socks5") && blank {
            r.password = p.password;
        }
        if has_kind(e, "wireguard") {
            if let Some(stored) = p.config {
                if is_blank(&e.config) {
                    r.config = Some(stored);
                } else if let Some(s) = &e.config {
                    r.config = Some(wg_conf::restore_wg_key(s.as_str(), stored.as_str()));
                }
            }
        }
    }
    r
}

/// `r` is what an egress is submitted as, with its secrets restored from the
/// egresses that there were.
pub open spec fn restored_from(old_es: Seq<EgressConfig>, e: EgressConfig, r: EgressConfig) -> bool {
    exists|prev: Option<EgressConfig>|
        previous(old_es, e, egress_id(e), prev) && #[trigger] restored_egress(prev, e, r)
}

/// Restores the secrets in a submitted configuration.
pub fn restore_secrets(old_config: &ProxyConfig, new: ProxyConfig) -> (r: ProxyConfig)
    ensures
        r == (ProxyConfig { egresses: r.egresses, ..new }),
        r.egresses@.len() == new.egresses@.len(),
        forall|i: int|
            0 <= i < r.egresses@.len() ==> restored_from(
                old_config.egresses@,
                new.egresses@[i],
                #[trigger] r.egresses@[i],
            ),
{
    let mut out: Vec<EgressConfig> = Vec::new();
    let mut i: usize = 0;
    while i < new.egresses.len()
        invariant
            i <= new.egresses@.len(),
            out@.len() == i,
            forall|j: int|
                0 <= j < i ==> restored_from(old_config.egresses@, new.egresses@[j], #[trigger] out@[j]),
        decreases new.egresses@.len() - i,
    {
        let e = &new.egresses[i];
        let id = lower_trimmed(e.id.as_str());
        let prev = match_prev(&old_config.egresses, e, id.as_str());
        let r = restore_egress(prev, e);
        proof {
            let p = match prev {
                Some(x) => Some(*x),
                None => None,
            };
            assert(restored_egress(p, *e, r));
        }
        out.push(r);
        i = i + 1;
    }
    ProxyConfig { egresses: out, ..new }
}

/// An egress that was shown and is submitted as it was shown has its password and
/// its private key again.
pub proof fn shown_secrets_come_back(
    old_es: Seq<EgressConfig>,
    i: int,
    shown: EgressConfig,
    r: EgressConfig,
)
    requires
        0 <= i < old_es.len(),
        old_es[i].id@ == egress_id(old_es[i]),
        forall|j: int| 0 <= j < i ==> (#[trigger] old_es[j]).id@ != old_es[i].id@,
        redacted_egress(old_es[i], shown),
        restored_from(old_es, shown, r),
    ensures
        is_kind(old_es[i], "socks5"@) ==> r.password == old_es[i].password,
        is_kind(old_es[i], "wireguard"@) && old_es[i].config is Some ==> r.config is Some && private_key(r.config->0@)
            == private_key(old_es[i].config->0@),
{
    let e = old_es[i];
    let prev = choose|prev: Option<EgressConfig>|
        previous(old_es, shown, egress_id(shown), prev) && #[trigger] restored_egress(prev, shown, r);
    let key = choose|k: Identity|
        {
            &&& k matches Identity::Id(x) && x@ == egress_id(shown)
            &&& if #[trigger] found_by(old_es, k) is Some {
                prev == found_by(old_es, k)
            } else {
                (exists|j: Identity| lasting_identity(shown, j) && prev == #[trigger] found_by(old_es, j)) || (prev is None
                    && forall|j: Identity| !#[trigger] lasting_identity(shown, j))
            }
        };
    let f = |x: EgressConfig|
        if is_meant(x, key) {
            Some(x)
        } else {
            None
        };
    text::lemma_first_found_at(old_es, i, f);
    assert(prev == Some(e));
    if is_kind(e, "wireguard"@) && e.config is Some {
        let stored = e.config->0@;
        let masked = changed(stored, KeyChange::Mask);
        assert(text_or_empty(shown.config) == masked);
        if trim(masked).len() > 0 {
            let c = choose|c: KeyChange| restores(c, stored) && r.config->0@ == #[trigger] changed(masked, c);
            wg_conf::restoring_gives_the_key_back(stored, c);
        }
    }
}

/// What is wrong with a configuration.
pub ghost enum Fault {
    Message(Seq<char>),
    /// The configuration of the tunnel at this index.
    Conf(int),
}

/// What is wrong with an egress, after those before it. `conf_ok` says of a tunnel's
/// configuration whether it can be used.
pub open spec fn egress_fault(es: Seq<EgressConfig>, conf_ok: Seq<bool>, i: int) -> Option<Fault> {
    let e = es[i];
    let kind = lower(trim(e.kind@));
    if egress_id(e).len() == 0 {
        Some(Fault::Message("an egress is missing its id"@))
    } else if egress_ids(es.take(i)).contains(egress_id(e)) {
        Some(Fault::Message("duplicate egress id '"@ + e.id@ + "'"@))
    } else if kind == "direct"@ || kind == "evasion"@ {
        None
    } else if kind == "socks5"@ {
        if trim(text_or_empty(e.address)).len() == 0 || e.port is None {
            Some(Fault::Message("socks5 egress '"@ + e.id@ + "' requires an address and port"@))
        } else {
            None
        }
    } else if kind == "wireguard"@ {
        if trim(text_or_empty(e.config)).len() == 0 {
            Some(Fault::Message("wireguard egress '"@ + e.id@ + "' requires a config (.conf text)"@))
        } else if !conf_ok[i] {
            Some(Fault::Conf(i))
        } else {
            None
        }
    } else {
        Some(Fault::Message("egress '"@ + e.id@ + "': unknown kind '"@ + kind + "'"@))
    }
}

/// What is wrong with a rule, for these egresses.
pub open spec fn rule_fault(ids: Set<Seq<char>>, r: RuleConfig) -> Option<Fault> {
    if trim(r.pattern@).len() == 0 {
        Some(Fault::Message("a rule is missing its pattern"@))
    } else if !ids.contains(lower(trim(r.egress@))) {
        Some(Fault::Message("rule '"@ + r.pattern@ + "' references unknown egress '"@ + r.egress@ + "'"@))
    } else {
        None
    }
}

/// The first fault of the egresses from the one at `i` on.
pub open spec fn egresses_fault(es: Seq<EgressConfig>, conf_ok: Seq<bool>, i: int) -> Option<Fault>
    decreases es.len() - i,
{
    if i < 0 || i >= es.len() {
        None
    } else {
        match egress_fault(es, conf_ok, i) {
            Some(p) => Some(p),
            None => egresses_fault(es, conf_ok, i + 1),
        }
    }
}

/// The first fault of the rules.
pub open spec fn rules_fault(ids: Set<Seq<char>>, rules: Seq<RuleConfig>) -> Option<Fault> {
    first_found(rules, |r: RuleConfig| rule_fault(ids, r))
}

/// The first fault of a configuration: of its egresses, or else of its rules.
pub open spec fn fault(c: ProxyConfig, conf_ok: Seq<bool>) -> Option<Fault> {
    match egresses_fault(c.egresses@, conf_ok, 0) {
        Some(p) => Some(p),
        None => rules_fault(egress_ids(c.egresses@), c.rules@),
    }
}

/// Whether a configuration can be used.
#[derive(Debug)]
pub enum Verdict {
    Valid,
    Invalid(FeriteError),
    /// The configuration of the tunnel at this index cannot be used.
    InvalidConf(usize),
}

/// The verdict on a fault.
pub open spec fn verdict_on(p: Option<Fault>, v: Verdict) -> bool {
    match p {
        None => v is Valid,
        Some(Fault::Message(m)) => v matches Verdict::Invalid(e) && config_error(e, m),
        Some(Fault::Conf(i)) => v matches Verdict::InvalidConf(k) && k == i,
    }
}

fn bad(before: &str, id: &str, after: &str) -> (r: Verdict)
    ensures
        r matches Verdict::Invalid(e) && config_error(e, before@ + id@ + after@),
{
    let mut m = String::new();
    m.append(before);
    m.append(id);
    m.append(after);
    assert(m@ =~= before@ + id@ + after@);
    Verdict::Invalid(FeriteError::Config(m))
}

fn simple(message: &str) -> (r: Verdict)
    ensures
        r matches Verdict::Invalid(e) && config_error(e, message@),
{
    Verdict::Invalid(FeriteError::Config(message.to_string()))
}

fn quoted(before: &str, a: &str, between: &str, b: &str) -> (r: Verdict)
    ensures
        r matches Verdict::Invalid(e) && config_error(e, before@ + a@ + between@ + b@ + "'"@),
{
    let mut m = String::new();
    m.append(before);
    m.append(a);
    m.append(between);
    m.append(b);
    m.append("'");
    assert(m@ =~= before@ + a@ + between@ + b@ + "'"@);
    Verdict::Invalid(FeriteError::Config(m))
}

fn check_egress(egresses: &Vec<EgressConfig>, conf_ok: &Vec<bool>, i: usize, ids: &StringHashSet) -> (r: Verdict)
    requires
        i < egresses@.len(),
        conf_ok@.len() == egresses@.len(),
        ids@ == egress_ids(egresses@.take(i as int)),
    ensures
        verdict_on(egress_fault(egresses@, conf_ok@, i as int), r),
{
    let e = &egresses[i];
    let id = lower_trimmed(e.id.as_str());
    let cs = text::chars_of(id.as_str());
    if cs.len() == 0 {
        return simple("an egress is missing its id");
    }
    if ids.contains(id.as_str()) {
        return bad("duplicate egress id '", e.id.as_str(), "'");
    }
    let kind = lower_trimmed(e.kind.as_str());
    if text::str_same(kind.as_str(), "direct") || text::str_same(kind.as_str(), "evasion") {
        return Verdict::Valid;
    }
    if text::str_same(kind.as_str(), "socks5") {
        if is_blank(&e.address) || e.port.is_none() {
            return bad("socks5 egress '", e.id.as_str(), "' requires an address and port");
        }
        return Verdict::Valid;
    }
    if text::str_same(kind.as_str(), "wireguard") {
        if is_blank(&e.config) {
            return bad("wireguard egress '", e.id.as_str(), "' requires a config (.conf text)");
        }
        if !conf_ok[i] {
            return Verdict::InvalidConf(i);
        }
        return Verdict::Valid;
    }
    quoted("egress '", e.id.as_str(), "': unknown kind '", kind.as_str())
}

fn check_rule(ids: &StringHashSet, r: &RuleConfig) -> (v: Verdict)
    ensures
        verdict_on(rule_fault(ids@, *r), v),
{
    let cs = text::chars_of(r.pattern.as_str());
    if text::trimmed(cs.as_slice()).len() == 0 {
        return simple("a rule is missing its pattern");
    }
    let eg = lower_trimmed(r.egress.as_str());
    if !ids.contains(eg.as_str()) {
        return quoted("rule '", r.pattern.as_str(), "' references unknown egress '", r.egress.as_str());
    }
    Verdict::Valid
}

/// Whether a configuration can be used, and if not, what is wrong first. `conf_ok`
/// says of each egress that is a tunnel whether its configuration can be used.
pub fn validate(c: &ProxyConfig, conf_ok: &Vec<bool>) -> (r: Verdict)
    requires
        conf_ok@.len() == c.egresses@.len(),
    ensures
        verdict_on(fault(*c, conf_ok@), r),
{
    let ghost es = c.egresses@;
    let ghost f = |e: EgressConfig| egress_id(e);
    let mut ids = StringHashSet::new();
    let mut i: usize = 0;
    assert(es.take(0).map_values(f).to_set() =~= Set::<Seq<char>>::empty());
    while i < c.egresses.len()
        invariant
            i <= c.egresses@.len(),
            es == c.egresses@,
            conf_ok@.len() == es.len(),
            f == (|e: EgressConfig| egress_id(e)),
            ids@ == es.take(i as int).map_values(f).to_set(),
            egresses_fault(es, conf_ok@, 0) == egresses_fault(es, conf_ok@, i as int),
        decreases c.egresses@.len() - i,
    {
        match check_egress(&c.egresses, conf_ok, i, &ids) {
            Verdict::Valid => {},
            v => {
                return v;
            },
        }
        proof {
            let pre = es.take(i as int).map_values(f);
            assert(es.take(i + 1).map_values(f) =~= pre.push(egress_id(es[i as int])));
            crate::order::lemma_push_set(pre, egress_id(es[i as int]));
        }
        ids.insert(lower_trimmed(c.egresses[i].id.as_str()));
        i = i + 1;
    }
    assert(es.take(es.len() as int) =~= es);
    let ghost g = |r: RuleConfig| rule_fault(ids@, r);
    let ghost rs = c.rules@;
    let mut k: usize = 0;
    while k < c.rules.len()
        invariant
            k <= c.rules@.len(),
            rs == c.rules@,
            g == (|r: RuleConfig| rule_fault(ids@, r)),
            first_found(rs.take(k as int), g) is None,
            egresses_fault(c.egresses@, conf_ok@, 0) is None,
            ids@ == egress_ids(c.egresses@),
        decreases c.rules@.len() - k,
    {
        proof {
            assert(rs.take(k + 1) =~= rs.take(k as int).push(rs[k as int]));
            text::lemma_first_found_push(rs.take(k as int), rs[k as int], g);
            text::lemma_first_found_prefix(rs.take(k + 1), rs.skip(k + 1), g);
            assert(rs.take(k + 1) + rs.skip(k + 1) =~= rs);
        }
        match check_rule(&ids, &c.rules[k]) {
            Verdict::Valid => {},
            v => {
                return v;
            },
        }
        k = k + 1;
    }
    assert(rs.take(rs.len() as int) =~= rs);
    Verdict::Valid
}

}
