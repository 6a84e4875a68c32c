//! The configuration: its parts, their defaults, and their canonical form.
use vstd::hash_set::StringHashSet;
use vstd::prelude::*;
use vstd::slice::*;
use vstd::string::*;

use crate::clients::{client_key, normalize_client_key};
use crate::ip::{IpAddr, Ipv4, Ipv6, SocketAddr};
use crate::order::{ascending, sorted_unique};
use crate::text;
use crate::text::{flat_map, lower, texts, trim, trim_end_char};

verus! {

/// The whole configuration.
#[derive(Debug)]
pub struct Config {
    pub dns: DnsConfig,
    pub upstream: Vec<UpstreamConfig>,
    pub storage: StorageConfig,
    pub api: ApiConfig,
    pub panel: PanelConfig,
    pub blocklist: BlocklistConfig,
    pub allowlist: AllowlistConfig,
    pub zones: Vec<ZoneConfig>,
    pub custom_records: Vec<CustomRecordConfig>,
    /// Routing of some domains through tunnels and proxies.
    pub proxy: ProxyConfig,
    /// Detailed logging of this program.
    pub debug_logging: bool,
    /// Where the web interface is, if not at its usual place.
    pub web_dir: Option<String>,
}

/// A DNS record of the user's own.
#[derive(Debug)]
pub struct CustomRecordConfig {
    /// Domain or wildcard, such as `router.lan` or `*.home.lan`.
    pub domain: String,
    /// `A`, `AAAA` or `CNAME`.
    pub record_type: String,
    /// An address, or the target of an alias.
    pub value: String,
    pub ttl: u32,
}

/// The DNS service.
#[derive(Debug)]
pub struct DnsConfig {
    pub bind_addr: SocketAddr,
    pub cache_size: usize,
    /// Bound on the cached responses in MiB; zero for none.
    pub cache_max_mb: usize,
    pub min_ttl: u64,
    pub max_ttl: u64,
    /// Domains that are not logged: names, or `*.` with a suffix.
    pub log_ignore: Vec<String>,
    /// Whether the client's subnet is withheld from resolvers.
    pub strip_ecs: bool,
    /// Whether DNSSEC signatures are asked for.
    pub dnssec: bool,
}

/// A zone that is asked of its own server.
#[derive(Debug)]
pub struct ZoneConfig {
    pub name: String,
    pub upstream: String,
}

/// A resolver that queries are sent to.
#[derive(Debug)]
pub enum UpstreamConfig {
    Plain { address: String, port: u16, egress: Option<String> },
    Tls { address: String, port: u16, tls_name: String, egress: Option<String> },
    Https { url: String, bootstrap_ip: Option<String> },
    Quic { address: String, port: u16, tls_name: String },
}

/// The query log.
#[derive(Debug)]
pub struct StorageConfig {
    /// Where the database is.
    pub path: String,
    /// Days after which entries are deleted; zero for never.
    pub log_retention_days: u32,
}

/// The management interface.
#[derive(Debug)]
pub struct ApiConfig {
    pub bind_addr: SocketAddr,
    pub api_key: Option<String>,
    /// Hash of the web password; without one no password is asked for.
    pub password_hash: Option<String>,
}

/// The name under which the web interface is reached.
#[derive(Debug)]
pub struct PanelConfig {
    pub enabled: bool,
    pub domain: String,
    pub ipv4: Option<Ipv4>,
    pub url: Option<String>,
}

/// Blocking.
#[derive(Debug)]
pub struct BlocklistConfig {
    pub enabled: bool,
    pub decision_cache_size: usize,
    pub lists: Vec<ListConfig>,
    pub wildcard_block: Vec<String>,
    pub whitelist: Vec<String>,
    pub client_bypass: Vec<String>,
    pub profiles: Vec<BlocklistProfileConfig>,
}

/// Exemptions from blocking.
#[derive(Debug)]
pub struct AllowlistConfig {
    pub domains: Vec<String>,
    pub lists: Vec<ListConfig>,
}

/// Blocking for certain devices.
#[derive(Debug)]
pub struct BlocklistProfileConfig {
    pub id: String,
    pub name: String,
    /// The block lists that apply.
    pub lists: Vec<String>,
    /// Addresses and hardware addresses of the devices.
    pub clients: Vec<String>,
    pub block: Vec<String>,
    pub allow: Vec<String>,
    /// The allow lists that apply; empty for all of them.
    pub allowlists: Vec<String>,
    /// Whether everything is blocked that is not allowed.
    pub default_deny: bool,
}

/// A list that is subscribed to.
#[derive(Debug)]
pub struct ListConfig {
    pub url: String,
    pub name: String,
    pub enabled: bool,
}

/// Routing of some domains through tunnels and proxies.
#[derive(Debug)]
pub struct ProxyConfig {
    pub enabled: bool,
    pub http_port: u16,
    pub https_port: u16,
    pub advertise_ipv4: Option<Ipv4>,
    pub advertise_ipv6: Option<Ipv6>,
    pub max_connections: usize,
    pub alert_webhook: Option<String>,
    pub egresses: Vec<EgressConfig>,
    pub rules: Vec<RuleConfig>,
}

/// A way out: a tunnel or a proxy.
#[derive(Debug)]
pub struct EgressConfig {
    /// The name by which rules refer to it.
    pub id: String,
    pub name: String,
    pub enabled: bool,
    /// `direct`, `socks5`, `wireguard` or `evasion`.
    pub kind: String,
    pub address: Option<String>,
    pub port: Option<u16>,
    pub username: Option<String>,
    pub password: Option<String>,
    /// A WireGuard configuration file.
    pub config: Option<String>,
    pub seg_position: Option<u16>,
    pub buffer_kb: Option<u32>,
    pub tx_buffer_kb: Option<u32>,
}

/// Sends a domain through an egress.
#[derive(Debug)]
pub struct RuleConfig {
    pub pattern: String,
    pub egress: String,
    /// Whether to refuse rather than to connect directly when the egress is down.
    pub fail_closed: bool,
    /// The devices to which the rule applies; empty for all.
    pub clients: Vec<String>,
}

impl Clone for ListConfig {
    fn clone(&self) -> (r: ListConfig)
        ensures
            r == *self,
    {
        ListConfig { url: self.url.clone(), name: self.name.clone(), enabled: self.enabled }
    }
}

/// A copy of an optional string.
pub(crate) fn copy_opt(s: &Option<String>) -> (r: Option<String>)
    ensures
        r == *s,
{
    match s {
        Some(t) => Some(t.clone()),
        None => None,
    }
}

impl Clone for EgressConfig {
    fn clone(&self) -> (r: EgressConfig)
        ensures
            r == *self,
    {
        EgressConfig {
            id: self.id.clone(),
            name: self.name.clone(),
            enabled: self.enabled,
            kind: self.kind.clone(),
            address: copy_opt(&self.address),
            port: self.port,
            username: copy_opt(&self.username),
            password: copy_opt(&self.password),
            config: copy_opt(&self.config),
            seg_position: self.seg_position,
            buffer_kb: self.buffer_kb,
            tx_buffer_kb: self.tx_buffer_kb,
        }
    }
}

/// The view of an optional string.
pub open spec fn opt_text(s: Option<String>) -> Option<Seq<char>> {
    match s {
        Some(t) => Some(t@),
        None => None,
    }
}

/// A secret that is not blank, trimmed.
pub open spec fn secret(s: Option<Seq<char>>) -> Option<Seq<char>> {
    match s {
        Some(t) if trim(t).len() > 0 => Some(trim(t)),
        _ => None,
    }
}

/// Trims a secret; a blank one counts as none.
pub fn normalize_secret(value: Option<String>) -> (r: Option<String>)
    ensures
        opt_text(r) == secret(opt_text(value)),
{
    match value {
        None => None,
        Some(v) => {
            let cs = text::chars_of(v.as_str());
            let t = text::trimmed(cs.as_slice());
            if t.len() == 0 {
                None
            } else {
                Some(text::string_of(t))
            }
        },
    }
}

/// `r` is the canonical form of `c`.
pub open spec fn normal_api(c: ApiConfig, r: ApiConfig) -> bool {
    &&& opt_text(r.api_key) == secret(opt_text(c.api_key))
    &&& opt_text(r.password_hash) == secret(opt_text(c.password_hash))
    &&& r.bind_addr == c.bind_addr
}

impl ApiConfig {
    /// Drops blank secrets and trims the others.
    pub fn normalize(&mut self)
        ensures
            normal_api(*old(self), *final(self)),
    {
        let key = self.api_key.take();
        self.api_key = normalize_secret(key);
        let hash = self.password_hash.take();
        self.password_hash = normalize_secret(hash);
    }

    /// The key, if one that is not blank is set.
    pub fn api_key(&self) -> (r: Option<String>)
        ensures
            opt_text(r) == secret(opt_text(self.api_key)),
    {
        match &self.api_key {
            Some(k) => normalize_secret(Some(k.clone())),
            None => None,
        }
    }

    /// The password hash, if one that is not blank is set.
    pub fn password_hash(&self) -> (r: Option<String>)
        ensures
            opt_text(r) == secret(opt_text(self.password_hash)),
    {
        match &self.password_hash {
            Some(k) => normalize_secret(Some(k.clone())),
            None => None,
        }
    }

    /// Whether a key is set.
    pub fn has_api_key(&self) -> (r: bool)
        ensures
            r == (secret(opt_text(self.api_key)) is Some),
    {
        self.api_key().is_some()
    }

    /// Whether a password is set.
    pub fn has_password(&self) -> (r: bool)
        ensures
            r == (secret(opt_text(self.password_hash)) is Some),
    {
        self.password_hash().is_some()
    }
}

/// The canonical panel domain: trimmed, without trailing dots, in lower case; the
/// default where nothing is left.
pub open spec fn panel_domain(d: Seq<char>) -> Seq<char> {
    let t = trim_end_char(trim(d), '.');
    if t.len() == 0 {
        "fe.te"@
    } else {
        lower(t)
    }
}

/// `r` is the canonical form of `c`.
pub open spec fn normal_panel(c: PanelConfig, r: PanelConfig) -> bool {
    &&& r.domain@ == panel_domain(c.domain@)
    &&& opt_text(r.url) == secret(opt_text(c.url))
    &&& r.enabled == c.enabled
    &&& r.ipv4 == c.ipv4
}

impl PanelConfig {
    /// Brings the domain into its canonical form and drops a blank URL.
    pub fn normalize(&mut self)
        ensures
            normal_panel(*old(self), *final(self)),
    {
        let cs = text::chars_of(self.domain.as_str());
        let d = text::trimmed_end_char(text::trimmed(cs.as_slice()), '.');
        if d.len() == 0 {
            self.domain = "fe.te".to_string();
        } else {
            self.domain = text::lowered(d);
        }
        let url = self.url.take();
        self.url = normalize_secret(url);
    }
}

/// The canonical keys of a list of client keys; what names no client is left out.
pub open spec fn client_keys(entries: Seq<Seq<char>>) -> Seq<Seq<char>> {
    flat_map(
        entries,
        |e: Seq<char>|
            match client_key(e) {
                Some(k) => seq![k],
                None => seq![],
            },
    )
}

/// The canonical client keys in order, each of them once.
pub fn normalize_client_keys(entries: &Vec<String>) -> (r: Vec<String>)
    ensures
        ascending(texts(r@)),
        texts(r@).to_set() == client_keys(texts(entries@)).to_set(),
{
    let ghost f = |e: Seq<char>|
        match client_key(e) {
            Some(k) => seq![k],
            None => seq![],
        };
    let mut keys: Vec<String> = Vec::new();
    let mut i: usize = 0;
    while i < entries.len()
        invariant
            i <= entries@.len(),
            f == (|e: Seq<char>|
                match client_key(e) {
                    Some(k) => seq![k],
                    None => seq![],
                }),
            texts(keys@) == flat_map(texts(entries@).take(i as int), f),
        decreases entries@.len() - i,
    {
        let ghost before = texts(keys@);
        proof {
            assert(texts(entries@).take(i + 1) == texts(entries@).take(i as int).push(entries@[i as int]@));
            text::lemma_flat_map_push(texts(entries@).take(i as int), entries@[i as int]@, f);
            assert(before + Seq::<Seq<char>>::empty() == before);
        }
        if let Some(k) = normalize_client_key(entries[i].as_str()) {
            proof {
                text::lemma_texts_push(keys@, k);
                assert(before + seq![k@] == before.push(k@));
            }
            keys.push(k);
        }
        i = i + 1;
    }
    assert(texts(entries@).take(entries@.len() as int) == texts(entries@));
    sorted_unique(keys)
}

/// `r` is the canonical form of `c`: the client keys in order, each once.
pub open spec fn normal_blocklist(c: BlocklistConfig, r: BlocklistConfig) -> bool {
    &&& ascending(texts(r.client_bypass@))
    &&& texts(r.client_bypass@).to_set() == client_keys(texts(c.client_bypass@)).to_set()
    &&& r.enabled == c.enabled
    &&& r.decision_cache_size == c.decision_cache_size
    &&& r.lists == c.lists
    &&& r.wildcard_block == c.wildcard_block
    &&& r.whitelist == c.whitelist
    &&& r.profiles == c.profiles
}

impl BlocklistConfig {
    /// Brings the client keys into their canonical form, in order, each once.
    pub fn normalize(&mut self)
        ensures
            normal_blocklist(*old(self), *final(self)),
    {
        self.client_bypass = normalize_client_keys(&self.client_bypass);
    }
}

/// The canonical identifier of an egress.
pub open spec fn egress_id(e: EgressConfig) -> Seq<char> {
    lower(trim(e.id@))
}

/// The identifiers of some egresses.
pub open spec fn egress_ids(es: Seq<EgressConfig>) -> Set<Seq<char>> {
    es.map_values(|e: EgressConfig| egress_id(e)).to_set()
}

/// The egresses that count: those with an identifier that no later one has.
pub open spec fn kept_egresses(es: Seq<EgressConfig>) -> Seq<EgressConfig>
    decreases es.len(),
{
    if es.len() == 0 {
        seq![]
    } else if egress_id(es[0]).len() > 0 && !egress_ids(es.skip(1)).contains(egress_id(es[0])) {
        seq![es[0]] + kept_egresses(es.skip(1))
    } else {
        kept_egresses(es.skip(1))
    }
}

/// `r` is the canonical form of the egress `e`: identifier and kind trimmed and in
/// lower case, the name trimmed or else the identifier, the rest as it was.
pub open spec fn normal_egress(e: EgressConfig, r: EgressConfig) -> bool {
    &&& r.id@ == egress_id(e)
    &&& r.kind@ == lower(trim(e.kind@))
    &&& r.name@ == (if trim(e.name@).len() == 0 {
        egress_id(e)
    } else {
        trim(e.name@)
    })
    &&& r.enabled == e.enabled
    &&& r.address == e.address
    &&& r.port == e.port
    &&& r.username == e.username
    &&& r.password == e.password
    &&& r.config == e.config
    &&& r.seg_position == e.seg_position
    &&& r.buffer_kb == e.buffer_kb
    &&& r.tx_buffer_kb == e.tx_buffer_kb
}

/// The canonical pattern of a rule.
pub open spec fn rule_pattern(r: RuleConfig) -> Seq<char> {
    lower(trim_end_char(trim(r.pattern@), '.'))
}

/// The canonical egress of a rule.
pub open spec fn rule_egress(r: RuleConfig) -> Seq<char> {
    lower(trim(r.egress@))
}

/// A rule that counts: it has a pattern, and its egress exists.
pub open spec fn usable_rule(r: RuleConfig, ids: Set<Seq<char>>) -> bool {
    rule_pattern(r).len() > 0 && ids.contains(rule_egress(r))
}

/// The rules that count.
pub open spec fn kept_rules(rs: Seq<RuleConfig>, ids: Set<Seq<char>>) -> Seq<RuleConfig>
    decreases rs.len(),
{
    if rs.len() == 0 {
        seq![]
    } else if usable_rule(rs[0], ids) {
        seq![rs[0]] + kept_rules(rs.skip(1), ids)
    } else {
        kept_rules(rs.skip(1), ids)
    }
}

/// `r` is the canonical form of the rule `o`.
pub open spec fn normal_rule(o: RuleConfig, r: RuleConfig) -> bool {
    &&& r.pattern@ == rule_pattern(o)
    &&& r.egress@ == rule_egress(o)
    &&& r.fail_closed == o.fail_closed
    &&& r.clients == o.clients
}

/// Each egress of the second list is the canonical form of the one in the first.
pub open spec fn normal_egresses(es: Seq<EgressConfig>, rs: Seq<EgressConfig>) -> bool {
    es.len() == rs.len() && forall|i: int| 0 <= i < es.len() ==> normal_egress(es[i], #[trigger] rs[i])
}

/// Each rule of the second list is the canonical form of the one in the first.
pub open spec fn normal_rules(os: Seq<RuleConfig>, rs: Seq<RuleConfig>) -> bool {
    os.len() == rs.len() && forall|i: int| 0 <= i < os.len() ==> normal_rule(os[i], #[trigger] rs[i])
}

fn trimmed_lower(s: &String) -> (r: String)
    ensures
        r@ == lower(trim(s@)),
{
    let cs = text::chars_of(s.as_str());
    text::lowered(text::trimmed(cs.as_slice()))
}

fn trimmed_string(s: &String) -> (r: String)
    ensures
        r@ == trim(s@),
{
    let cs = text::chars_of(s.as_str());
    text::string_of(text::trimmed(cs.as_slice()))
}

fn normalize_egress(e: EgressConfig) -> (r: EgressConfig)
    ensures
        normal_egress(e, r),
{
    let id = trimmed_lower(&e.id);
    let kind = trimmed_lower(&e.kind);
    let trimmed = trimmed_string(&e.name);
    let name = if trimmed.as_str().is_empty() {
        id.clone()
    } else {
        trimmed
    };
    EgressConfig { id, kind, name, ..e }
}

/// The list in the opposite order.
fn reversed<T>(v: Vec<T>) -> (r: Vec<T>)
    ensures
        r@ == v@.reverse(),
{
    let mut from = v;
    let mut out: Vec<T> = Vec::new();
    let ghost all = from@;
    while from.len() > 0
        invariant
            from@ == all.take(from@.len() as int),
            from@.len() <= all.len(),
            out@ == all.skip(from@.len() as int).reverse(),
        decreases from@.len(),
    {
        let ghost n = from@.len() as int;
        if let Some(x) = from.pop() {
            out.push(x);
            proof {
                assert(all.skip(n - 1).reverse() =~= all.skip(n).reverse().push(all[n - 1]));
            }
        }
    }
    assert(all.skip(0) == all);
    out
}

fn normalize_egresses(egresses: Vec<EgressConfig>) -> (r: Vec<EgressConfig>)
    ensures
        normal_egresses(kept_egresses(egresses@), r@),
{
    let ghost all = egresses@;
    let ghost f = |e: EgressConfig| egress_id(e);
    let mut from = egresses;
    let mut seen = StringHashSet::new();
    let mut kept: Vec<EgressConfig> = Vec::new();
    assert(all.skip(all.len() as int).len() == 0);
    assert(egress_ids(all.skip(all.len() as int)) == Set::<Seq<char>>::empty());
    assert(all.take(all.len() as int) == all);
    while from.len() > 0
        invariant
            from@.len() <= all.len(),
            from@ == all.take(from@.len() as int),
            f == (|e: EgressConfig| egress_id(e)),
            forall|d: Seq<char>| d.len() > 0 ==> (seen@.contains(d) <==> #[trigger] egress_ids(
                all.skip(from@.len() as int),
            ).contains(d)),
            normal_egresses(kept_egresses(all.skip(from@.len() as int)), kept@.reverse()),
        decreases from@.len(),
    {
        let ghost n = from@.len() as int;
        let ghost tail = all.skip(n);
        let ghost before = kept@;
        match from.pop() {
            Some(e) => {
                let ghost cur = all.skip(n - 1);
                proof {
                    assert(cur[0] == e);
                    assert(cur.skip(1) == tail);
                    assert(cur == seq![e] + tail);
                    lemma_front_ids(e, tail);
                }
                let norm = normalize_egress(e);
                let ghost id = egress_id(e);
                if !norm.id.as_str().is_empty() {
                    let fresh = seen.insert(norm.id.clone());
                    if fresh {
                        kept.push(norm);
                        proof {
                            assert(kept@.reverse() =~= seq![norm] + before.reverse());
                            let ks = kept_egresses(tail);
                            assert(kept_egresses(cur) == seq![e] + ks);
                            assert forall|i: int| 0 <= i < kept@.len() implies normal_egress(
                                (seq![e] + ks)[i],
                                #[trigger] kept@.reverse()[i],
                            ) by {
                                if i > 0 {
                                    assert(before.reverse()[i - 1] == kept@.reverse()[i]);
                                }
                            }
                        }
                    }
                }
                assert forall|d: Seq<char>| d.len() > 0 implies (seen@.contains(d) <==> #[trigger] egress_ids(
                    cur,
                ).contains(d)) by {
                    assert(egress_ids(cur) == egress_ids(tail).insert(id));
                }
            },
            None => {},
        }
    }
    assert(all.skip(0) == all);
    reversed(kept)
}

proof fn lemma_front_ids(e: EgressConfig, tail: Seq<EgressConfig>)
    ensures
        egress_ids(seq![e] + tail) == egress_ids(tail).insert(egress_id(e)),
{
    let f = |e: EgressConfig| egress_id(e);
    let whole = (seq![e] + tail).map_values(f);
    let rest = tail.map_values(f);
    assert forall|d: Seq<char>| whole.to_set().contains(d) == rest.to_set().insert(egress_id(e)).contains(d) by {
        if rest.contains(d) {
            let i = choose|i: int| 0 <= i < rest.len() && rest[i] == d;
            assert(whole[i + 1] == d);
        }
        if d == egress_id(e) {
            assert(whole[0] == d);
        }
        if whole.contains(d) {
            let i = choose|i: int| 0 <= i < whole.len() && whole[i] == d;
            if i > 0 {
                assert(rest[i - 1] == d);
            }
        }
    }
    assert(whole.to_set() =~= rest.to_set().insert(egress_id(e)));
}

fn normalize_rule(o: RuleConfig) -> (r: RuleConfig)
    ensures
        normal_rule(o, r),
{
    let cs = text::chars_of(o.pattern.as_str());
    let pattern = text::lowered(text::trimmed_end_char(text::trimmed(cs.as_slice()), '.'));
    let egress = trimmed_lower(&o.egress);
    RuleConfig { pattern, egress, ..o }
}

fn normalize_rules(rules: Vec<RuleConfig>, ids: &StringHashSet) -> (r: Vec<RuleConfig>)
    ensures
        normal_rules(kept_rules(rules@, ids@), r@),
{
    let ghost all = rules@;
    let mut from = rules;
    let mut kept: Vec<RuleConfig> = Vec::new();
    assert(all.skip(all.len() as int).len() == 0);
    assert(all.take(all.len() as int) == all);
    while from.len() > 0
        invariant
            from@.len() <= all.len(),
            from@ == all.take(from@.len() as int),
            normal_rules(kept_rules(all.skip(from@.len() as int), ids@), kept@.reverse()),
        decreases from@.len(),
    {
        let ghost n = from@.len() as int;
        let ghost tail = all.skip(n);
        let ghost before = kept@;
        match from.pop() {
            Some(o) => {
                let ghost cur = all.skip(n - 1);
                proof {
                    assert(cur[0] == o);
                    assert(cur.skip(1) == tail);
                }
                let norm = normalize_rule(o);
                if !norm.pattern.as_str().is_empty() && ids.contains(norm.egress.as_str()) {
                    kept.push(norm);
                    proof {
                        assert(kept@.reverse() =~= seq![norm] + before.reverse());
                        let ks = kept_rules(tail, ids@);
                        assert(kept_rules(cur, ids@) == seq![o] + ks);
                        assert forall|i: int| 0 <= i < kept@.len() implies normal_rule(
                            (seq![o] + ks)[i],
                            #[trigger] kept@.reverse()[i],
                        ) by {
                            if i > 0 {
                                assert(before.reverse()[i - 1] == kept@.reverse()[i]);
                            }
                        }
                    }
                }
            },
            None => {},
        }
    }
    assert(all.skip(0) == all);
    reversed(kept)
}

/// The identifiers of egresses in canonical form.
pub open spec fn plain_ids(es: Seq<EgressConfig>) -> Set<Seq<char>> {
    es.map_values(|e: EgressConfig| e.id@).to_set()
}

fn ids_of(egresses: &Vec<EgressConfig>) -> (r: StringHashSet)
    ensures
        r@ == plain_ids(egresses@),
{
    let ghost f = |e: EgressConfig| e.id@;
    let mut ids = StringHashSet::new();
    let mut i: usize = 0;
    assert(egresses@.take(0).map_values(f).to_set() == Set::<Seq<char>>::empty());
    while i < egresses.len()
        invariant
            i <= egresses@.len(),
            f == (|e: EgressConfig| e.id@),
            ids@ == egresses@.take(i as int).map_values(f).to_set(),
        decreases egresses@.len() - i,
    {
        proof {
            let pre = egresses@.take(i as int).map_values(f);
            assert(egresses@.take(i + 1).map_values(f) == pre.push(egresses@[i as int].id@));
            crate::order::lemma_push_set(pre, egresses@[i as int].id@);
        }
        ids.insert(egresses[i].id.clone());
        i = i + 1;
    }
    assert(egresses@.take(egresses@.len() as int) == egresses@);
    ids
}

/// `r` is the canonical form of `c`. Of egresses with the same identifier the last
/// counts; rules without a pattern or an egress are dropped.
pub open spec fn normal_proxy(c: ProxyConfig, r: ProxyConfig) -> bool {
    &&& opt_text(r.alert_webhook) == secret(opt_text(c.alert_webhook))
    &&& normal_egresses(kept_egresses(c.egresses@), r.egresses@)
    &&& normal_rules(kept_rules(c.rules@, plain_ids(r.egresses@)), r.rules@)
    &&& r.enabled == c.enabled
    &&& r.http_port == c.http_port
    &&& r.https_port == c.https_port
    &&& r.advertise_ipv4 == c.advertise_ipv4
    &&& r.advertise_ipv6 == c.advertise_ipv6
    &&& r.max_connections == c.max_connections
}

impl ProxyConfig {
    /// Brings the routing into its canonical form. Of egresses with the same
    /// identifier the last counts; rules without a pattern or an egress are dropped.
    pub fn normalize(&mut self)
        ensures
            normal_proxy(*old(self), *final(self)),
    {
        let webhook = self.alert_webhook.take();
        self.alert_webhook = normalize_secret(webhook);
        let mut egresses: Vec<EgressConfig> = Vec::new();
        std::mem::swap(&mut egresses, &mut self.egresses);
        self.egresses = normalize_egresses(egresses);
        let ids = ids_of(&self.egresses);
        let mut rules: Vec<RuleConfig> = Vec::new();
        std::mem::swap(&mut rules, &mut self.rules);
        self.rules = normalize_rules(rules, &ids);
    }
}

/// The defaults of the DNS service.
pub open spec fn default_dns(r: DnsConfig) -> bool {
    &&& r.bind_addr == any_v4(53)
    &&& r.cache_size == 10_000
    &&& r.cache_max_mb == 8
    &&& r.min_ttl == 60
    &&& r.max_ttl == 3600
    &&& texts(r.log_ignore@) == seq!["fe.te"@, "*.arpa"@, "*.local"@, "*.localdomain"@]
    &&& r.strip_ecs
    &&& r.dnssec
}

impl Default for DnsConfig {
    fn default() -> (r: DnsConfig)
        ensures
            default_dns(r),
    {
        let mut log_ignore: Vec<String> = Vec::new();
        log_ignore.push("fe.te".to_string());
        log_ignore.push("*.arpa".to_string());
        log_ignore.push("*.local".to_string());
        log_ignore.push("*.localdomain".to_string());
        assert(texts(log_ignore@) =~= seq!["fe.te"@, "*.arpa"@, "*.local"@, "*.localdomain"@]);
        DnsConfig {
            bind_addr: SocketAddr { ip: IpAddr::V4(Ipv4 { a: 0, b: 0, c: 0, d: 0 }), port: 53, scope: 0 },
            cache_size: 10_000,
            cache_max_mb: 8,
            min_ttl: 60,
            max_ttl: 3600,
            log_ignore,
            strip_ecs: true,
            dnssec: true,
        }
    }
}

/// All IPv4 addresses of the machine, at a port.
pub open spec fn any_v4(port: u16) -> SocketAddr {
    SocketAddr { ip: IpAddr::V4(Ipv4 { a: 0, b: 0, c: 0, d: 0 }), port, scope: 0 }
}

/// The loopback address, at a port.
pub open spec fn local_v4(port: u16) -> SocketAddr {
    SocketAddr { ip: IpAddr::V4(Ipv4 { a: 127, b: 0, c: 0, d: 1 }), port, scope: 0 }
}

impl StorageConfig {
    /// The default, for a directory in which the program keeps its data.
    pub fn in_dir(data_dir: &str) -> (r: StorageConfig)
        ensures
            r.path@ == data_dir@ + "/ferrite.db"@,
            r.log_retention_days == 0,
    {
        let mut path = data_dir.to_string();
        path.append("/ferrite.db");
        StorageConfig { path, log_retention_days: 0 }
    }
}

/// The defaults of the management interface.
pub open spec fn default_api(r: ApiConfig) -> bool {
    &&& r.bind_addr == local_v4(8080)
    &&& r.api_key is None
    &&& r.password_hash is None
}

impl Default for ApiConfig {
    fn default() -> (r: ApiConfig)
        ensures
            default_api(r),
    {
        ApiConfig {
            bind_addr: SocketAddr { ip: IpAddr::V4(Ipv4 { a: 127, b: 0, c: 0, d: 1 }), port: 8080, scope: 0 },
            api_key: None,
            password_hash: None,
        }
    }
}

/// The default name of the web interface.
pub open spec fn default_panel(r: PanelConfig) -> bool {
    &&& r.enabled
    &&& r.domain@ == "fe.te"@
    &&& r.ipv4 is None
    &&& r.url is None
}

impl Default for PanelConfig {
    fn default() -> (r: PanelConfig)
        ensures
            default_panel(r),
    {
        PanelConfig { enabled: true, domain: "fe.te".to_string(), ipv4: None, url: None }
    }
}

/// The defaults of blocking.
pub open spec fn default_blocklist(r: BlocklistConfig) -> bool {
    &&& r.enabled
    &&& r.decision_cache_size == 20_000
    &&& r.lists@.len() == 1
    &&& r.lists@[0].url@ == "https://raw.githubusercontent.com/StevenBlack/hosts/master/hosts"@
    &&& r.lists@[0].name@ == "StevenBlack"@
    &&& r.lists@[0].enabled
    &&& r.wildcard_block@.len() == 0
    &&& r.whitelist@.len() == 0
    &&& r.client_bypass@.len() == 0
    &&& r.profiles@.len() == 0
}

impl Default for BlocklistConfig {
    fn default() -> (r: BlocklistConfig)
        ensures
            default_blocklist(r),
    {
        let mut lists: Vec<ListConfig> = Vec::new();
        lists.push(
            ListConfig {
                url: "https://raw.githubusercontent.com/StevenBlack/hosts/master/hosts".to_string(),
                name: "StevenBlack".to_string(),
                enabled: true,
            },
        );
        BlocklistConfig {
            enabled: true,
            decision_cache_size: 20_000,
            lists,
            wildcard_block: Vec::new(),
            whitelist: Vec::new(),
            client_bypass: Vec::new(),
            profiles: Vec::new(),
        }
    }
}

/// No exemptions.
pub open spec fn default_allowlist(r: AllowlistConfig) -> bool {
    &&& r.domains@.len() == 0
    &&& r.lists@.len() == 0
}

impl Default for AllowlistConfig {
    fn default() -> (r: AllowlistConfig)
        ensures
            default_allowlist(r),
    {
        AllowlistConfig { domains: Vec::new(), lists: Vec::new() }
    }
}

/// The defaults of routing.
pub open spec fn default_proxy(r: ProxyConfig) -> bool {
    &&& !r.enabled
    &&& r.http_port == 80
    &&& r.https_port == 443
    &&& r.advertise_ipv4 is None
    &&& r.advertise_ipv6 is None
    &&& r.max_connections == 128
    &&& r.alert_webhook is None
    &&& r.egresses@.len() == 0
    &&& r.rules@.len() == 0
}

impl Default for ProxyConfig {
    fn default() -> (r: ProxyConfig)
        ensures
            default_proxy(r),
    {
        ProxyConfig {
            enabled: false,
            http_port: 80,
            https_port: 443,
            advertise_ipv4: None,
            advertise_ipv6: None,
            max_connections: 128,
            alert_webhook: None,
            egresses: Vec::new(),
            rules: Vec::new(),
        }
    }
}

/// A resolver that is asked without encryption.
pub open spec fn plain_resolver(u: UpstreamConfig, at: Seq<char>) -> bool {
    match u {
        UpstreamConfig::Plain { address, port, egress } => address@ == at && port == 53 && egress is None,
        _ => false,
    }
}

/// The default of the configuration, for a directory in which the program keeps its
/// data.
pub open spec fn is_default(c: Config, data_dir: Seq<char>) -> bool {
    &&& default_dns(c.dns)
    &&& c.upstream@.len() == 2
    &&& plain_resolver(c.upstream@[0], "8.8.8.8"@)
    &&& plain_resolver(c.upstream@[1], "8.8.4.4"@)
    &&& c.storage.path@ == data_dir + "/ferrite.db"@
    &&& c.storage.log_retention_days == 0
    &&& default_api(c.api)
    &&& default_panel(c.panel)
    &&& default_blocklist(c.blocklist)
    &&& default_allowlist(c.allowlist)
    &&& c.zones@.len() == 0
    &&& c.custom_records@.len() == 0
    &&& default_proxy(c.proxy)
    &&& c.debug_logging
    &&& c.web_dir is None
}

impl Config {
    /// The default, for a directory in which the program keeps its data.
    pub fn with_data_dir(data_dir: &str) -> (r: Config)
        ensures
            is_default(r, data_dir@),
    {
        let mut upstream: Vec<UpstreamConfig> = Vec::new();
        upstream.push(UpstreamConfig::Plain { address: "8.8.8.8".to_string(), port: 53, egress: None });
        upstream.push(UpstreamConfig::Plain { address: "8.8.4.4".to_string(), port: 53, egress: None });
        Config {
            dns: DnsConfig::default(),
            upstream,
            storage: StorageConfig::in_dir(data_dir),
            api: ApiConfig::default(),
            panel: PanelConfig::default(),
            blocklist: BlocklistConfig::default(),
            allowlist: AllowlistConfig::default(),
            zones: Vec::new(),
            custom_records: Vec::new(),
            proxy: ProxyConfig::default(),
            debug_logging: true,
            web_dir: None,
        }
    }

    /// Brings all parts into their canonical form.
    pub fn normalize(&mut self)
        ensures
            normal_config(*old(self), *final(self)),
    {
        self.api.normalize();
        self.panel.normalize();
        self.blocklist.normalize();
        self.proxy.normalize();
    }

    /// The canonical form.
    pub fn normalized(self) -> (r: Config)
        ensures
            normal_config(self, r),
    {
        let mut c = self;
        c.normalize();
        c
    }
}

/// `r` is the canonical form of `c`.
pub open spec fn normal_config(c: Config, r: Config) -> bool {
    &&& normal_api(c.api, r.api)
    &&& normal_panel(c.panel, r.panel)
    &&& normal_blocklist(c.blocklist, r.blocklist)
    &&& normal_proxy(c.proxy, r.proxy)
    &&& r.dns == c.dns
    &&& r.upstream == c.upstream
    &&& r.storage == c.storage
    &&& r.allowlist == c.allowlist
    &&& r.zones == c.zones
    &&& r.custom_records == c.custom_records
    &&& r.debug_logging == c.debug_logging
    &&& r.web_dir == c.web_dir
}

}
