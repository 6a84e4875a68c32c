//! Changing the settings while the program runs.
use vstd::prelude::*;
use vstd::slice::*;
use vstd::string::*;

use crate::api::auth;
use crate::api::auth::{argon2_accepts, hashing_failed, no_random};
use crate::clients::{client_key, normalize_client_key};
use crate::config::{opt_text, secret, ApiConfig, Config, UpstreamConfig, ZoneConfig};
use crate::dns::cache::{MAX_TTL, MIN_TTL};
use crate::error::{config_error, FeriteError, Result};
use crate::ip;
use crate::ip::{socket_of_text, Ipv4, SocketAddr};
use crate::order;
use crate::order::ascending;
use crate::text;
use crate::text::{decimal, lower, texts, trim, trim_end_char};

verus! {

/// How a secret is shown.
pub open spec fn masked(s: Option<Seq<char>>) -> Option<Seq<char>> {
    if s is Some {
        Some("***"@)
    } else {
        None
    }
}

/// The key and the password hash as they are shown: `***` where one is set, nothing
/// where none is.
pub fn masked_secrets(api: &ApiConfig) -> (r: (Option<&'static str>, Option<&'static str>))
    ensures
        (match r.0 {
            Some(t) => Some(t@),
            None => None,
        }) == masked(secret(opt_text(api.api_key))),
        (match r.1 {
            Some(t) => Some(t@),
            None => None,
        }) == masked(secret(opt_text(api.password_hash))),
{
    let key = if api.has_api_key() {
        Some("***")
    } else {
        None
    };
    let hash = if api.has_password() {
        Some("***")
    } else {
        None
    };
    (key, hash)
}

/// The settings that are to be changed. A field that is absent stays as it is; where
/// a setting can be cleared, the inner option says whether it is.
#[derive(Debug)]
pub struct SettingsPatch {
    pub api_key: Option<Option<String>>,
    pub password: Option<Option<String>>,
    pub dns_min_ttl: Option<u64>,
    pub dns_max_ttl: Option<u64>,
    pub dns_log_ignore: Option<Vec<String>>,
    pub web_dir: Option<Option<String>>,
    pub log_retention_days: Option<u32>,
    pub blocklist_enabled: Option<bool>,
    pub blocklist_client_bypass: Option<Vec<String>>,
    pub debug_logging: Option<bool>,
    pub dns_bind_addr: Option<String>,
    pub dns_cache_size: Option<usize>,
    pub dns_strip_ecs: Option<bool>,
    pub dns_dnssec: Option<bool>,
    pub blocklist_decision_cache_size: Option<usize>,
    pub api_bind_addr: Option<String>,
    pub upstream: Option<Vec<UpstreamConfig>>,
    pub zones: Option<Vec<ZoneConfig>>,
    pub panel_enabled: Option<bool>,
    pub panel_domain: Option<String>,
    pub panel_ipv4: Option<Option<Ipv4>>,
    pub panel_url: Option<Option<String>>,
}

/// A patch without fields.
pub open spec fn no_fields(p: SettingsPatch) -> bool {
    &&& p.api_key is None && p.password is None && p.dns_min_ttl is None && p.dns_max_ttl is None
    &&& p.dns_log_ignore is None && p.web_dir is None && p.log_retention_days is None
    &&& p.blocklist_enabled is None && p.blocklist_client_bypass is None && p.debug_logging is None
    &&& p.dns_bind_addr is None && p.dns_cache_size is None && p.dns_strip_ecs is None && p.dns_dnssec is None
    &&& p.blocklist_decision_cache_size is None && p.api_bind_addr is None && p.upstream is None
    &&& p.zones is None && p.panel_enabled is None && p.panel_domain is None && p.panel_ipv4 is None
    &&& p.panel_url is None
}

impl Default for SettingsPatch {
    fn default() -> (r: SettingsPatch)
        ensures
            no_fields(r),
    {
        SettingsPatch {
            api_key: None,
            password: None,
            dns_min_ttl: None,
            dns_max_ttl: None,
            dns_log_ignore: None,
            web_dir: None,
            log_retention_days: None,
            blocklist_enabled: None,
            blocklist_client_bypass: None,
            debug_logging: None,
            dns_bind_addr: None,
            dns_cache_size: None,
            dns_strip_ecs: None,
            dns_dnssec: None,
            blocklist_decision_cache_size: None,
            api_bind_addr: None,
            upstream: None,
            zones: None,
            panel_enabled: None,
            panel_domain: None,
            panel_ipv4: None,
            panel_url: None,
        }
    }
}

/// The settings that can be changed, as plain values.
pub ghost struct SettingsView {
    pub api_key: Option<Seq<char>>,
    pub password_hash: Option<Seq<char>>,
    pub min_ttl: u64,
    pub max_ttl: u64,
    pub log_ignore: Seq<Seq<char>>,
    pub web_dir: Option<Seq<char>>,
    pub log_retention_days: u32,
    pub enabled: bool,
    pub client_bypass: Seq<Seq<char>>,
    pub debug_logging: bool,
    pub dns_bind: SocketAddr,
    pub cache_size: usize,
    pub strip_ecs: bool,
    pub dnssec: bool,
    pub decision_cache_size: usize,
    pub api_bind: SocketAddr,
    pub upstream: Seq<UpstreamConfig>,
    pub zones: Seq<ZoneConfig>,
    pub panel_enabled: bool,
    pub panel_domain: Seq<char>,
    pub panel_ipv4: Option<Ipv4>,
    pub panel_url: Option<Seq<char>>,
}

/// The settings of a configuration.
pub open spec fn settings_of(c: Config) -> SettingsView {
    SettingsView {
        api_key: opt_text(c.api.api_key),
        password_hash: opt_text(c.api.password_hash),
        min_ttl: c.dns.min_ttl,
        max_ttl: c.dns.max_ttl,
        log_ignore: texts(c.dns.log_ignore@),
        web_dir: opt_text(c.web_dir),
        log_retention_days: c.storage.log_retention_days,
        enabled: c.blocklist.enabled,
        client_bypass: texts(c.blocklist.client_bypass@),
        debug_logging: c.debug_logging,
        dns_bind: c.dns.bind_addr,
        cache_size: c.dns.cache_size,
        strip_ecs: c.dns.strip_ecs,
        dnssec: c.dns.dnssec,
        decision_cache_size: c.blocklist.decision_cache_size,
        api_bind: c.api.bind_addr,
        upstream: c.upstream@,
        zones: c.zones@,
        panel_enabled: c.panel.enabled,
        panel_domain: c.panel.domain@,
        panel_ipv4: c.panel.ipv4,
        panel_url: opt_text(c.panel.url),
    }
}

/// What no settings change touches.
pub open spec fn rest_stays(a: Config, b: Config) -> bool {
    &&& b.dns.cache_max_mb == a.dns.cache_max_mb
    &&& b.storage.path == a.storage.path
    &&& b.blocklist.lists == a.blocklist.lists
    &&& b.blocklist.wildcard_block == a.blocklist.wildcard_block
    &&& b.blocklist.whitelist == a.blocklist.whitelist
    &&& b.blocklist.profiles == a.blocklist.profiles
    &&& b.allowlist == a.allowlist
    &&& b.custom_records == a.custom_records
    &&& b.proxy == a.proxy
}

/// A name, if the field is there.
pub open spec fn if_there(there: bool, name: Seq<char>) -> Seq<Seq<char>> {
    if there {
        seq![name]
    } else {
        seq![]
    }
}

/// The names of the fields in a patch that take effect at once.
pub open spec fn hot_names(p: SettingsPatch) -> Seq<Seq<char>> {
    if_there(p.api_key is Some, "api_key"@) + if_there(p.password is Some, "password"@) + if_there(
        p.dns_min_ttl is Some,
        "dns_min_ttl"@,
    ) + if_there(p.dns_max_ttl is Some, "dns_max_ttl"@) + if_there(p.dns_log_ignore is Some, "dns_log_ignore"@)
        + if_there(p.web_dir is Some, "web_dir"@) + if_there(p.log_retention_days is Some, "log_retention_days"@)
        + if_there(p.blocklist_enabled is Some, "blocklist_enabled"@) + if_there(
        p.blocklist_client_bypass is Some,
        "blocklist_client_bypass"@,
    ) + if_there(p.debug_logging is Some, "debug_logging"@)
}

/// The names of the fields in a patch that take effect after a restart.
pub open spec fn restart_names(p: SettingsPatch) -> Seq<Seq<char>> {
    if_there(p.dns_bind_addr is Some, "dns_bind_addr"@) + if_there(p.dns_cache_size is Some, "dns_cache_size"@)
        + if_there(p.dns_strip_ecs is Some, "dns_strip_ecs"@) + if_there(p.dns_dnssec is Some, "dns_dnssec"@)
        + if_there(p.blocklist_decision_cache_size is Some, "blocklist_decision_cache_size"@) + if_there(
        p.api_bind_addr is Some,
        "api_bind_addr"@,
    ) + if_there(p.upstream is Some, "upstream"@) + if_there(p.zones is Some, "zones"@) + if_there(
        p.panel_enabled is Some,
        "panel_enabled"@,
    ) + if_there(p.panel_domain is Some, "panel_domain"@) + if_there(p.panel_ipv4 is Some, "panel_ipv4"@) + if_there(
        p.panel_url is Some,
        "panel_url"@,
    )
}

/// The first of two messages that is there.
pub open spec fn either(a: Option<Seq<char>>, b: Option<Seq<char>>) -> Option<Seq<char>> {
    if a is Some {
        a
    } else {
        b
    }
}

/// A blank key is refused.
pub open spec fn key_fault(p: SettingsPatch) -> Option<Seq<char>> {
    match p.api_key {
        Some(Some(k)) if trim(k@).len() == 0 => Some("api_key cannot be empty; use null to disable key auth"@),
        _ => None,
    }
}

/// The lifetimes after the patch.
pub open spec fn new_ttls(v: SettingsView, p: SettingsPatch) -> (u64, u64) {
    (
        match p.dns_min_ttl {
            Some(n) => n,
            None => v.min_ttl,
        },
        match p.dns_max_ttl {
            Some(n) => n,
            None => v.max_ttl,
        },
    )
}

/// The message that a lifetime is out of range.
pub open spec fn range_message(name: Seq<char>) -> Seq<char> {
    name + " must be between "@ + decimal(MIN_TTL as nat) + " and "@ + decimal(MAX_TTL as nat) + " seconds"@
}

/// The message that the lifetimes are in the wrong order.
pub open spec fn order_message(lo: u64, hi: u64) -> Seq<char> {
    "dns_min_ttl ("@ + decimal(lo as nat) + ") cannot be greater than dns_max_ttl ("@ + decimal(hi as nat) + ")"@
}

/// The lifetimes stay in their range and in order, where one of them is changed.
pub open spec fn ttl_fault(v: SettingsView, p: SettingsPatch) -> Option<Seq<char>> {
    let (lo, hi) = new_ttls(v, p);
    if p.dns_min_ttl is None && p.dns_max_ttl is None {
        None
    } else if !(MIN_TTL <= lo <= MAX_TTL) {
        Some(range_message("dns_min_ttl"@))
    } else if !(MIN_TTL <= hi <= MAX_TTL) {
        Some(range_message("dns_max_ttl"@))
    } else if lo > hi {
        Some(order_message(lo, hi))
    } else {
        None
    }
}

/// The first entry from `i` on that names no client.
pub open spec fn first_invalid(entries: Seq<Seq<char>>, i: int) -> Option<Seq<char>>
    decreases entries.len() - i,
{
    if i < 0 || i >= entries.len() {
        None
    } else if client_key(entries[i]) is None {
        Some(entries[i])
    } else {
        first_invalid(entries, i + 1)
    }
}

/// The canonical keys of entries that all name clients.
pub open spec fn keys_of(entries: Seq<Seq<char>>) -> Seq<Seq<char>> {
    entries.map_values(|e: Seq<char>| client_key(e)->0)
}

/// The list holds the canonical keys of the entries, in order, each once.
pub open spec fn canonical_list(entries: Seq<Seq<char>>, keys: Seq<Seq<char>>) -> bool {
    ascending(keys) && keys.to_set() == keys_of(entries).to_set()
}

/// An entry that names no client is refused.
pub open spec fn bypass_fault(p: SettingsPatch) -> Option<Seq<char>> {
    match p.blocklist_client_bypass {
        None => None,
        Some(l) => match first_invalid(texts(l@), 0) {
            Some(e) => Some("invalid blocklist_client_bypass entry: "@ + e),
            None => None,
        },
    }
}

/// An address to listen on that is no address is refused.
pub open spec fn bind_fault(label: Seq<char>, addr: Option<String>) -> Option<Seq<char>> {
    match addr {
        Some(a) if socket_of_text(a@) is None => Some(label + a@),
        _ => None,
    }
}

/// A decision cache without room is refused.
pub open spec fn decision_fault(p: SettingsPatch) -> Option<Seq<char>> {
    if p.blocklist_decision_cache_size == Some(0usize) {
        Some("blocklist_decision_cache_size must be greater than 0"@)
    } else {
        None
    }
}

/// There must be a resolver.
pub open spec fn upstream_fault(p: SettingsPatch) -> Option<Seq<char>> {
    match p.upstream {
        Some(u) if u@.len() == 0 => Some("upstream list cannot be empty"@),
        _ => None,
    }
}

/// The name of the panel as it is kept: trimmed, without dots at its end, and in lower
/// case.
pub open spec fn panel_name(d: Seq<char>) -> Seq<char> {
    lower(trim_end_char(trim(d), '.'))
}

/// A blank name of the panel is refused.
pub open spec fn panel_domain_fault(p: SettingsPatch) -> Option<Seq<char>> {
    match p.panel_domain {
        Some(d) if panel_name(d@).len() == 0 => Some("panel_domain cannot be empty"@),
        _ => None,
    }
}

/// A blank address of the panel is refused.
pub open spec fn panel_url_fault(p: SettingsPatch) -> Option<Seq<char>> {
    match p.panel_url {
        Some(Some(u)) if trim(u@).len() == 0 => Some("panel_url cannot be empty; use null to reset"@),
        _ => None,
    }
}

/// What is wrong with a patch: the first field that is refused, and why.
pub open spec fn patch_fault(v: SettingsView, p: SettingsPatch) -> Option<Seq<char>> {
    either(hot_fault(v, p), restart_fault(p))
}

/// What is wrong with the fields that take effect at once.
pub open spec fn hot_fault(v: SettingsView, p: SettingsPatch) -> Option<Seq<char>> {
    either(key_fault(p), either(ttl_fault(v, p), bypass_fault(p)))
}

/// What is wrong with the fields that take effect after a restart.
pub open spec fn restart_fault(p: SettingsPatch) -> Option<Seq<char>> {
    either(
        bind_fault("invalid dns_bind_addr: "@, p.dns_bind_addr),
        either(
            decision_fault(p),
            either(
                bind_fault("invalid api_bind_addr: "@, p.api_bind_addr),
                either(upstream_fault(p), either(panel_domain_fault(p), panel_url_fault(p))),
            ),
        ),
    )
}

/// A value that is given, or the one that was there.
pub open spec fn given_or<T>(new: Option<T>, old_value: T) -> T {
    match new {
        Some(x) => x,
        None => old_value,
    }
}

/// A text that can be cleared: the given one, trimmed, or the one that was there.
pub open spec fn text_or(new: Option<Option<String>>, old_value: Option<Seq<char>>) -> Option<Seq<char>> {
    match new {
        Some(Some(t)) => Some(trim(t@)),
        Some(None) => None,
        None => old_value,
    }
}

/// An address to listen on: the given one, or the one that was there.
pub open spec fn bind_or(new: Option<String>, old_value: SocketAddr) -> SocketAddr {
    match new {
        Some(a) => socket_of_text(a@)->0,
        None => old_value,
    }
}

/// The settings after the fields that take effect at once. `hash` is the hash of a new
/// password, and `keys` the canonical client keys.
pub open spec fn hot_settings(
    v: SettingsView,
    p: SettingsPatch,
    hash: Option<Option<Seq<char>>>,
    keys: Seq<Seq<char>>,
) -> SettingsView {
    SettingsView {
        api_key: text_or(p.api_key, v.api_key),
        password_hash: given_or(hash, v.password_hash),
        min_ttl: given_or(p.dns_min_ttl, v.min_ttl),
        max_ttl: given_or(p.dns_max_ttl, v.max_ttl),
        log_ignore: match p.dns_log_ignore {
            Some(l) => texts(l@),
            None => v.log_ignore,
        },
        web_dir: match p.web_dir {
            Some(d) => opt_text(d),
            None => v.web_dir,
        },
        log_retention_days: given_or(p.log_retention_days, v.log_retention_days),
        enabled: given_or(p.blocklist_enabled, v.enabled),
        client_bypass: if p.blocklist_client_bypass is Some {
            keys
        } else {
            v.client_bypass
        },
        debug_logging: given_or(p.debug_logging, v.debug_logging),
        ..v
    }
}

/// The settings after the fields that take effect after a restart.
pub open spec fn restart_settings(v: SettingsView, p: SettingsPatch) -> SettingsView {
    SettingsView {
        dns_bind: bind_or(p.dns_bind_addr, v.dns_bind),
        cache_size: given_or(p.dns_cache_size, v.cache_size),
        strip_ecs: given_or(p.dns_strip_ecs, v.strip_ecs),
        dnssec: given_or(p.dns_dnssec, v.dnssec),
        decision_cache_size: given_or(p.blocklist_decision_cache_size, v.decision_cache_size),
        api_bind: bind_or(p.api_bind_addr, v.api_bind),
        upstream: match p.upstream {
            Some(u) => u@,
            None => v.upstream,
        },
        zones: match p.zones {
            Some(z) => z@,
            None => v.zones,
        },
        panel_enabled: given_or(p.panel_enabled, v.panel_enabled),
        panel_domain: match p.panel_domain {
            Some(d) => panel_name(d@),
            None => v.panel_domain,
        },
        panel_ipv4: given_or(p.panel_ipv4, v.panel_ipv4),
        panel_url: text_or(p.panel_url, v.panel_url),
        ..v
    }
}

/// The settings after a patch, and the message of its error, if there is one. A patch
/// with a field that is refused changes nothing.
pub open spec fn patched(
    v: SettingsView,
    p: SettingsPatch,
    hash: Option<Option<Seq<char>>>,
    keys: Seq<Seq<char>>,
) -> (SettingsView, Option<Seq<char>>) {
    match patch_fault(v, p) {
        Some(m) => (v, Some(m)),
        None => (restart_settings(hot_settings(v, p, hash, keys), p), None),
    }
}

/// What a patch has changed, and what of it is to be put into effect now.
#[derive(Debug)]
pub struct SettingsChange {
    /// The names of the fields that take effect at once.
    pub hot_changed: Vec<&'static str>,
    /// The names of the fields that take effect after a restart.
    pub restart_changed: Vec<&'static str>,
    /// The lifetimes, where one of them was changed.
    pub ttl_bounds: Option<(u64, u64)>,
    pub blocklist_enabled: Option<bool>,
    pub client_bypass: Option<Vec<String>>,
    pub debug_logging: Option<bool>,
}

/// The names in a list.
pub open spec fn names(v: Seq<&'static str>) -> Seq<Seq<char>> {
    v.map_values(|s: &'static str| s@)
}

impl SettingsChange {
    /// Whether anything was changed.
    pub fn any(&self) -> (r: bool)
        ensures
            r == (self.hot_changed@.len() + self.restart_changed@.len() > 0),
    {
        self.hot_changed.len() > 0 || self.restart_changed.len() > 0
    }

    /// Whether the program is to be started anew.
    pub fn needs_restart(&self) -> (r: bool)
        ensures
            r == (self.restart_changed@.len() > 0),
    {
        self.restart_changed.len() > 0
    }
}

/// The change that a patch makes to settings.
pub open spec fn changes(p: SettingsPatch, before: SettingsView, after: SettingsView, c: SettingsChange) -> bool {
    &&& names(c.hot_changed@) == hot_names(p)
    &&& names(c.restart_changed@) == restart_names(p)
    &&& c.ttl_bounds == (if p.dns_min_ttl is Some || p.dns_max_ttl is Some {
        Some((after.min_ttl, after.max_ttl))
    } else {
        None
    })
    &&& c.blocklist_enabled == p.blocklist_enabled
    &&& match c.client_bypass {
        Some(k) => p.blocklist_client_bypass is Some && texts(k@) == after.client_bypass,
        None => p.blocklist_client_bypass is None,
    }
    &&& c.debug_logging == p.debug_logging
}

fn refuse(m: &str) -> (r: FeriteError)
    ensures
        config_error(r, m@),
{
    FeriteError::Config(m.to_string())
}

fn refuse_with(label: &str, value: &str) -> (r: FeriteError)
    ensures
        config_error(r, label@ + value@),
{
    let mut m = String::new();
    m.append(label);
    m.append(value);
    assert(m@ =~= label@ + value@);
    FeriteError::Config(m)
}

fn out_of_range(name: &str) -> (r: FeriteError)
    ensures
        config_error(r, range_message(name@)),
{
    let mut m = String::new();
    m.append(name);
    m.append(" must be between ");
    text::push_decimal(&mut m, MIN_TTL);
    m.append(" and ");
    text::push_decimal(&mut m, MAX_TTL);
    m.append(" seconds");
    assert(m@ =~= range_message(name@));
    FeriteError::Config(m)
}

fn out_of_order(lo: u64, hi: u64) -> (r: FeriteError)
    ensures
        config_error(r, order_message(lo, hi)),
{
    let mut m = String::new();
    m.append("dns_min_ttl (");
    text::push_decimal(&mut m, lo);
    m.append(") cannot be greater than dns_max_ttl (");
    text::push_decimal(&mut m, hi);
    m.append(")");
    assert(m@ =~= order_message(lo, hi));
    FeriteError::Config(m)
}

fn note(list: &mut Vec<&'static str>, there: bool, name: &'static str)
    ensures
        names(final(list)@) == names(old(list)@) + if_there(there, name@),
{
    let ghost before = list@;
    if there {
        list.push(name);
    }
    assert(names(list@) =~= names(before) + if_there(there, name@));
}

fn list_hot(p: &SettingsPatch) -> (r: Vec<&'static str>)
    ensures
        names(r@) == hot_names(*p),
{
    let mut v: Vec<&'static str> = Vec::new();
    note(&mut v, p.api_key.is_some(), "api_key");
    note(&mut v, p.password.is_some(), "password");
    note(&mut v, p.dns_min_ttl.is_some(), "dns_min_ttl");
    note(&mut v, p.dns_max_ttl.is_some(), "dns_max_ttl");
    note(&mut v, p.dns_log_ignore.is_some(), "dns_log_ignore");
    note(&mut v, p.web_dir.is_some(), "web_dir");
    note(&mut v, p.log_retention_days.is_some(), "log_retention_days");
    note(&mut v, p.blocklist_enabled.is_some(), "blocklist_enabled");
    note(&mut v, p.blocklist_client_bypass.is_some(), "blocklist_client_bypass");
    note(&mut v, p.debug_logging.is_some(), "debug_logging");
    assert(names(v@) =~= hot_names(*p));
    v
}

fn list_restart(p: &SettingsPatch) -> (r: Vec<&'static str>)
    ensures
        names(r@) == restart_names(*p),
{
    let mut v: Vec<&'static str> = Vec::new();
    note(&mut v, p.dns_bind_addr.is_some(), "dns_bind_addr");
    note(&mut v, p.dns_cache_size.is_some(), "dns_cache_size");
    note(&mut v, p.dns_strip_ecs.is_some(), "dns_strip_ecs");
    note(&mut v, p.dns_dnssec.is_some(), "dns_dnssec");
    note(&mut v, p.blocklist_decision_cache_size.is_some(), "blocklist_decision_cache_size");
    note(&mut v, p.api_bind_addr.is_some(), "api_bind_addr");
    note(&mut v, p.upstream.is_some(), "upstream");
    note(&mut v, p.zones.is_some(), "zones");
    note(&mut v, p.panel_enabled.is_some(), "panel_enabled");
    note(&mut v, p.panel_domain.is_some(), "panel_domain");
    note(&mut v, p.panel_ipv4.is_some(), "panel_ipv4");
    note(&mut v, p.panel_url.is_some(), "panel_url");
    assert(names(v@) =~= restart_names(*p));
    v
}

/// The canonical keys of entries, in order and each once; the first entry that names
/// no client is an error.
pub fn normalize_client_bypass(entries: &Vec<String>) -> (r: Result<Vec<String>>)
    ensures
        match first_invalid(texts(entries@), 0) {
            Some(e) => r matches Err(x) && config_error(x, "invalid blocklist_client_bypass entry: "@ + e),
            None => r matches Ok(k) && canonical_list(texts(entries@), texts(k@)),
        },
{
    let ghost ev = texts(entries@);
    let mut keys: Vec<String> = Vec::new();
    let mut i: usize = 0;
    assert(texts(keys@) =~= keys_of(ev.take(0)));
    while i < entries.len()
        invariant
            i <= entries@.len(),
            ev == texts(entries@),
            first_invalid(ev, 0) == first_invalid(ev, i as int),
            texts(keys@) == keys_of(ev.take(i as int)),
        decreases entries@.len() - i,
    {
        assert(ev[i as int] == entries@[i as int]@);
        match normalize_client_key(entries[i].as_str()) {
            Some(k) => {
                proof {
                    text::lemma_texts_push(keys@, k);
                    assert(keys_of(ev.take(i + 1)) =~= keys_of(ev.take(i as int)).push(k@));
                }
                keys.push(k);
            },
            None => return Err(refuse_with("invalid blocklist_client_bypass entry: ", entries[i].as_str())),
        }
        i = i + 1;
    }
    assert(ev.take(ev.len() as int) =~= ev);
    Ok(order::sorted_unique(keys))
}

/// The message of an error about settings.
pub open spec fn message_of(e: FeriteError) -> Option<Seq<char>> {
    match e {
        FeriteError::Config(m) => Some(m@),
        _ => None,
    }
}

/// The outcome of looking for a fault.
spec fn tells(r: Result<()>, fault: Option<Seq<char>>) -> bool {
    match r {
        Ok(_) => fault is None,
        Err(e) => e is Config && fault == message_of(e),
    }
}

fn check_key(p: &SettingsPatch) -> (r: Result<()>)
    ensures
        tells(r, key_fault(*p)),
{
    if let Some(Some(k)) = &p.api_key {
        let cs = text::chars_of(k.as_str());
        if text::trimmed(cs.as_slice()).len() == 0 {
            return Err(refuse("api_key cannot be empty; use null to disable key auth"));
        }
    }
    Ok(())
}

fn check_ttls(cfg: &Config, p: &SettingsPatch) -> (r: Result<()>)
    ensures
        tells(r, ttl_fault(settings_of(*cfg), *p)),
{
    if p.dns_min_ttl.is_none() && p.dns_max_ttl.is_none() {
        return Ok(());
    }
    let lo: u64 = match p.dns_min_ttl {
        Some(n) => n,
        None => cfg.dns.min_ttl,
    };
    let hi: u64 = match p.dns_max_ttl {
        Some(n) => n,
        None => cfg.dns.max_ttl,
    };
    if lo < MIN_TTL || lo > MAX_TTL {
        return Err(out_of_range("dns_min_ttl"));
    }
    if hi < MIN_TTL || hi > MAX_TTL {
        return Err(out_of_range("dns_max_ttl"));
    }
    if lo > hi {
        return Err(out_of_order(lo, hi));
    }
    Ok(())
}

fn check_bind(label: &str, addr: &Option<String>) -> (r: Result<()>)
    ensures
        tells(r, bind_fault(label@, *addr)),
{
    if let Some(a) = addr {
        if ip::parse_socket_addr(a.as_str()).is_none() {
            return Err(refuse_with(label, a.as_str()));
        }
    }
    Ok(())
}

fn check_panel(p: &SettingsPatch) -> (r: Result<()>)
    ensures
        tells(r, either(panel_domain_fault(*p), panel_url_fault(*p))),
{
    if let Some(d) = &p.panel_domain {
        let cs = text::chars_of(d.as_str());
        if text::trimmed_end_char(text::trimmed(cs.as_slice()), '.').len() == 0 {
            return Err(refuse("panel_domain cannot be empty"));
        }
    }
    if let Some(Some(u)) = &p.panel_url {
        let cs = text::chars_of(u.as_str());
        if text::trimmed(cs.as_slice()).len() == 0 {
            return Err(refuse("panel_url cannot be empty; use null to reset"));
        }
    }
    Ok(())
}

fn check_restart(p: &SettingsPatch) -> (r: Result<()>)
    ensures
        tells(r, restart_fault(*p)),
{
    if let Err(e) = check_bind("invalid dns_bind_addr: ", &p.dns_bind_addr) {
        return Err(e);
    }
    if let Some(n) = p.blocklist_decision_cache_size {
        if n == 0 {
            return Err(refuse("blocklist_decision_cache_size must be greater than 0"));
        }
    }
    if let Err(e) = check_bind("invalid api_bind_addr: ", &p.api_bind_addr) {
        return Err(e);
    }
    if let Some(u) = &p.upstream {
        if u.len() == 0 {
            return Err(refuse("upstream list cannot be empty"));
        }
    }
    check_panel(p)
}

/// What became of the client keys that a patch gives: their canonical form, or the
/// error for the first that names no client.
spec fn keys_read(p: SettingsPatch, keys: Option<Result<Vec<String>>>) -> bool {
    match keys {
        Some(Ok(k)) => p.blocklist_client_bypass is Some && bypass_fault(p) is None && canonical_list(
            texts(p.blocklist_client_bypass->0@),
            texts(k@),
        ),
        Some(Err(e)) => e is Config && message_of(e) is Some && bypass_fault(p) == message_of(e),
        None => p.blocklist_client_bypass is None,
    }
}

/// The views of keys that may be there.
spec fn view_keys(keys: Option<Vec<String>>) -> Seq<Seq<char>> {
    match keys {
        Some(k) => texts(k@),
        None => seq![],
    }
}

/// The views of keys that were read.
spec fn read_views(keys: Option<Result<Vec<String>>>) -> Seq<Seq<char>> {
    match keys {
        Some(Ok(k)) => texts(k@),
        _ => seq![],
    }
}

fn read_keys(p: &SettingsPatch) -> (r: Option<Result<Vec<String>>>)
    ensures
        keys_read(*p, r),
{
    match &p.blocklist_client_bypass {
        Some(l) => Some(normalize_client_bypass(l)),
        None => None,
    }
}

/// The canonical client keys of a patch, if it gives any and nothing is wrong with it.
fn check_patch(cfg: &Config, p: &SettingsPatch, keys: Option<Result<Vec<String>>>) -> (r: Result<Option<Vec<String>>>)
    requires
        keys_read(*p, keys),
    ensures
        match r {
            Ok(k) => {
                &&& patch_fault(settings_of(*cfg), *p) is None
                &&& match keys {
                    Some(Ok(l)) => k == Some(l),
                    Some(Err(_)) => false,
                    None => k is None,
                }
            },
            Err(e) => e is Config && patch_fault(settings_of(*cfg), *p) == message_of(e) && message_of(e) is Some,
        },
{
    if let Err(e) = check_key(p) {
        return Err(e);
    }
    if let Err(e) = check_ttls(cfg, p) {
        return Err(e);
    }
    let kept = match keys {
        Some(Ok(k)) => Some(k),
        Some(Err(e)) => return Err(e),
        None => None,
    };
    if let Err(e) = check_restart(p) {
        return Err(e);
    }
    Ok(kept)
}

fn clone_list(l: &Vec<String>) -> (r: Vec<String>)
    ensures
        texts(r@) == texts(l@),
{
    let mut out: Vec<String> = Vec::new();
    let mut i: usize = 0;
    assert(texts(out@) =~= texts(l@).take(0));
    while i < l.len()
        invariant
            i <= l@.len(),
            texts(out@) == texts(l@).take(i as int),
        decreases l@.len() - i,
    {
        let s = l[i].clone();
        proof {
            text::lemma_texts_push(out@, s);
            assert(texts(l@).take(i + 1) =~= texts(l@).take(i as int).push(s@));
        }
        out.push(s);
        i = i + 1;
    }
    assert(texts(l@).take(l@.len() as int) =~= texts(l@));
    out
}

/// The view of an optional optional text.
pub open spec fn opt_opt_text(s: Option<Option<String>>) -> Option<Option<Seq<char>>> {
    match s {
        Some(t) => Some(opt_text(t)),
        None => None,
    }
}

/// The client keys that a patch gives, in canonical form.
pub open spec fn patch_keys(p: SettingsPatch, keys: Seq<Seq<char>>) -> bool {
    match p.blocklist_client_bypass {
        Some(l) => first_invalid(texts(l@), 0) is None ==> canonical_list(texts(l@), keys),
        None => true,
    }
}

fn write_value<T: Copy>(to: &mut T, new: Option<T>)
    ensures
        *final(to) == given_or(new, *old(to)),
{
    if let Some(x) = new {
        *to = x;
    }
}

fn write_text(to: &mut Option<String>, new: &Option<Option<String>>)
    ensures
        opt_text(*final(to)) == text_or(*new, opt_text(*old(to))),
{
    match new {
        Some(Some(t)) => {
            let cs = text::chars_of(t.as_str());
            *to = Some(text::string_of(text::trimmed(cs.as_slice())));
        },
        Some(None) => {
            *to = None;
        },
        None => {},
    }
}

fn write_path(to: &mut Option<String>, new: &Option<Option<String>>)
    ensures
        opt_text(*final(to)) == (match *new {
            Some(d) => opt_text(d),
            None => opt_text(*old(to)),
        }),
{
    match new {
        Some(Some(t)) => {
            *to = Some(t.clone());
        },
        Some(None) => {
            *to = None;
        },
        None => {},
    }
}

fn write_hash(to: &mut Option<String>, new: Option<Option<String>>)
    ensures
        opt_text(*final(to)) == given_or(opt_opt_text(new), opt_text(*old(to))),
{
    if let Some(h) = new {
        *to = h;
    }
}

fn write_list(to: &mut Vec<String>, new: &Option<Vec<String>>)
    ensures
        texts(final(to)@) == (match *new {
            Some(l) => texts(l@),
            None => texts(old(to)@),
        }),
{
    if let Some(l) = new {
        *to = clone_list(l);
    }
}

fn write_items<T>(to: &mut Vec<T>, new: Option<Vec<T>>)
    ensures
        final(to)@ == (match new {
            Some(l) => l@,
            None => old(to)@,
        }),
{
    if let Some(l) = new {
        *to = l;
    }
}

fn write_bind(to: &mut SocketAddr, addr: &Option<String>)
    requires
        addr matches Some(a) ==> socket_of_text(a@) is Some,
    ensures
        *final(to) == bind_or(*addr, *old(to)),
{
    if let Some(a) = addr {
        if let Some(s) = ip::parse_socket_addr(a.as_str()) {
            *to = s;
        }
    }
}

fn write_panel_domain(to: &mut String, new: &Option<String>)
    ensures
        final(to)@ == (match *new {
            Some(d) => panel_name(d@),
            None => old(to)@,
        }),
{
    if let Some(d) = new {
        let cs = text::chars_of(d.as_str());
        *to = text::lowered(text::trimmed_end_char(text::trimmed(cs.as_slice()), '.'));
    }
}

fn write_hot(cfg: &mut Config, p: &SettingsPatch, hash: Option<Option<String>>, keys: &Option<Vec<String>>)
    requires
        keys is Some == p.blocklist_client_bypass is Some,
    ensures
        rest_stays(*old(cfg), *final(cfg)),
        settings_of(*final(cfg)) == hot_settings(settings_of(*old(cfg)), *p, opt_opt_text(hash), view_keys(*keys)),
{
    write_text(&mut cfg.api.api_key, &p.api_key);
    write_hash(&mut cfg.api.password_hash, hash);
    write_value(&mut cfg.dns.min_ttl, p.dns_min_ttl);
    write_value(&mut cfg.dns.max_ttl, p.dns_max_ttl);
    write_list(&mut cfg.dns.log_ignore, &p.dns_log_ignore);
    write_path(&mut cfg.web_dir, &p.web_dir);
    write_value(&mut cfg.storage.log_retention_days, p.log_retention_days);
    write_value(&mut cfg.blocklist.enabled, p.blocklist_enabled);
    write_list(&mut cfg.blocklist.client_bypass, keys);
    write_value(&mut cfg.debug_logging, p.debug_logging);
}

fn write_restart(cfg: &mut Config, p: SettingsPatch)
    requires
        restart_fault(p) is None,
    ensures
        rest_stays(*old(cfg), *final(cfg)),
        settings_of(*final(cfg)) == restart_settings(settings_of(*old(cfg)), p),
{
    write_bind(&mut cfg.dns.bind_addr, &p.dns_bind_addr);
    write_value(&mut cfg.dns.cache_size, p.dns_cache_size);
    write_value(&mut cfg.dns.strip_ecs, p.dns_strip_ecs);
    write_value(&mut cfg.dns.dnssec, p.dns_dnssec);
    write_value(&mut cfg.blocklist.decision_cache_size, p.blocklist_decision_cache_size);
    write_bind(&mut cfg.api.bind_addr, &p.api_bind_addr);
    write_value(&mut cfg.panel.enabled, p.panel_enabled);
    write_panel_domain(&mut cfg.panel.domain, &p.panel_domain);
    write_value(&mut cfg.panel.ipv4, p.panel_ipv4);
    write_text(&mut cfg.panel.url, &p.panel_url);
    write_items(&mut cfg.upstream, p.upstream);
    write_items(&mut cfg.zones, p.zones);
}

/// Changes the settings, where no field of the patch is refused; else nothing is
/// changed. The hash of a new password is handed in.
pub fn apply_patch(cfg: &mut Config, patch: SettingsPatch, hash: Option<Option<String>>) -> (r: Result<SettingsChange>)
    ensures
        rest_stays(*old(cfg), *final(cfg)),
        r is Err ==> *final(cfg) == *old(cfg),
        exists|keys: Seq<Seq<char>>|
            {
                &&& patch_keys(patch, keys)
                &&& (settings_of(*final(cfg)), refusal(r)) == #[trigger] patched(settings_of(*old(cfg)), patch, opt_opt_text(hash), keys)
            },
        match r {
            Ok(c) => changes(patch, settings_of(*old(cfg)), settings_of(*final(cfg)), c),
            Err(e) => e is Config,
        },
{
    let ghost v = settings_of(*cfg);
    let ghost gh = opt_opt_text(hash);
    let read = read_keys(&patch);
    let ghost keys = read_views(read);
    assert(patch_keys(patch, keys));
    let client_bypass = match check_patch(cfg, &patch, read) {
        Ok(k) => k,
        Err(e) => {
            assert((v, message_of(e)) == patched(v, patch, gh, keys));
            return Err(e);
        },
    };
    let hot_changed = list_hot(&patch);
    let restart_changed = list_restart(&patch);
    let blocklist_enabled = patch.blocklist_enabled;
    let debug_logging = patch.debug_logging;
    let ttl_given = patch.dns_min_ttl.is_some() || patch.dns_max_ttl.is_some();
    write_hot(cfg, &patch, hash, &client_bypass);
    write_restart(cfg, patch);
    assert((settings_of(*cfg), None::<Seq<char>>) == patched(v, patch, gh, keys));
    let ttl_bounds = if ttl_given {
        Some((cfg.dns.min_ttl, cfg.dns.max_ttl))
    } else {
        None
    };
    Ok(
        SettingsChange {
            hot_changed,
            restart_changed,
            ttl_bounds,
            blocklist_enabled,
            client_bypass,
            debug_logging,
        },
    )
}

/// The message with which a change was refused.
pub open spec fn refusal(r: Result<SettingsChange>) -> Option<Seq<char>> {
    match r {
        Ok(_) => None,
        Err(e) => message_of(e),
    }
}

/// The words in which an error gives its reason.
pub open spec fn reason_of(e: FeriteError) -> Seq<char> {
    match e {
        FeriteError::Config(m) => m@,
        FeriteError::Internal(m) => m@,
        _ => Seq::empty(),
    }
}

/// What is said where a new password could not be hashed: that, and the reason.
pub open spec fn new_password_fault(m: Seq<char>) -> bool {
    &&& "password hash failed: "@.is_prefix_of(m)
    &&& exists|cause: FeriteError|
        (hashing_failed(cause) || no_random(cause)) && m == "password hash failed: "@ + #[trigger] reason_of(cause)
}

fn hash_failed(e: &FeriteError) -> (r: FeriteError)
    ensures
        config_error(r, "password hash failed: "@ + reason_of(*e)),
        r matches FeriteError::Config(m) && "password hash failed: "@.is_prefix_of(m@),
{
    let mut m = String::new();
    m.append("password hash failed: ");
    match e {
        FeriteError::Config(t) => m.append(t.as_str()),
        FeriteError::Internal(t) => m.append(t.as_str()),
        _ => {},
    }
    assert(m@ =~= "password hash failed: "@ + reason_of(*e));
    FeriteError::Config(m)
}

/// The patch asks for a password that is no password.
pub open spec fn empty_password(p: SettingsPatch) -> bool {
    p.password matches Some(Some(w)) && w@.len() == 0
}

/// The hash belongs to the password that the patch asks for.
pub open spec fn hash_for(p: SettingsPatch, hash: Option<Option<Seq<char>>>) -> bool {
    match p.password {
        None => hash is None,
        Some(None) => hash == Some(None::<Seq<char>>),
        Some(Some(w)) => match hash {
            Some(Some(h)) => argon2_accepts(w@, h),
            _ => false,
        },
    }
}

/// The settings after a patch whose password has this hash.
pub open spec fn patches(
    v: SettingsView,
    p: SettingsPatch,
    hash: Option<Option<Seq<char>>>,
    to: (SettingsView, Option<Seq<char>>),
) -> bool {
    exists|keys: Seq<Seq<char>>| patch_keys(p, keys) && to == #[trigger] patched(v, p, hash, keys)
}

/// The hash of the password that a patch asks for. An empty password is refused, and so
/// is any where it cannot be hashed.
pub fn hash_new_password(patch: &SettingsPatch) -> (r: Result<Option<Option<String>>>)
    ensures
        empty_password(*patch) ==> (r matches Err(e) && config_error(
            e,
            "password cannot be empty; use null to disable password auth"@,
        )),
        !empty_password(*patch) ==> match r {
            Ok(h) => hash_for(*patch, opt_opt_text(h)),
            Err(e) => patch.password matches Some(Some(_)) && (e matches FeriteError::Config(m)
                && new_password_fault(m@)),
        },
{
    match &patch.password {
        None => Ok(None),
        Some(None) => Ok(Some(None)),
        Some(Some(w)) => {
            let cs = text::chars_of(w.as_str());
            if cs.len() == 0 {
                return Err(refuse("password cannot be empty; use null to disable password auth"));
            }
            match auth::hash_password(w.as_str()) {
                Ok(h) => Ok(Some(Some(h))),
                Err(e) => Err(hash_failed(&e)),
            }
        },
    }
}

/// Changes the settings, where nothing of the patch is refused; else nothing is
/// changed. A new password is kept as a hash that accepts it; an empty one is refused,
/// and so is any where it cannot be hashed.
pub fn update_settings(cfg: &mut Config, patch: SettingsPatch) -> (r: Result<SettingsChange>)
    ensures
        rest_stays(*old(cfg), *final(cfg)),
        r is Err ==> *final(cfg) == *old(cfg),
        empty_password(patch) ==> (r matches Err(e) && config_error(
            e,
            "password cannot be empty; use null to disable password auth"@,
        )),
        !empty_password(patch) ==> {
            ||| exists|hash: Option<Option<Seq<char>>>|
                hash_for(patch, hash) && #[trigger] patches(
                    settings_of(*old(cfg)),
                    patch,
                    hash,
                    (settings_of(*final(cfg)), refusal(r)),
                )
            ||| patch.password matches Some(Some(_)) && (refusal(r) matches Some(m) && new_password_fault(m))
        },
        match r {
            Ok(c) => changes(patch, settings_of(*old(cfg)), settings_of(*final(cfg)), c),
            Err(e) => e is Config,
        },
{
    let hash = match hash_new_password(&patch) {
        Ok(h) => h,
        Err(e) => return Err(e),
    };
    let ghost g = opt_opt_text(hash);
    assert(hash_for(patch, g));
    let ghost v = settings_of(*cfg);
    let r = apply_patch(cfg, patch, hash);
    assert(patches(v, patch, g, (settings_of(*cfg), refusal(r))));
    r
}

/// A patch without fields changes nothing.
pub proof fn empty_patches_change_nothing(v: SettingsView, p: SettingsPatch, keys: Seq<Seq<char>>)
    requires
        no_fields(p),
    ensures
        patched(v, p, None, keys) == (v, None::<Seq<char>>),
        hot_names(p) + restart_names(p) == Seq::<Seq<char>>::empty(),
{
}

/// Lifetimes that were in their range and in order stay so under every patch.
pub proof fn lifetimes_stay_in_order(
    v: SettingsView,
    p: SettingsPatch,
    hash: Option<Option<Seq<char>>>,
    keys: Seq<Seq<char>>,
)
    requires
        MIN_TTL <= v.min_ttl <= v.max_ttl <= MAX_TTL,
    ensures
        ({
            let w = patched(v, p, hash, keys).0;
            MIN_TTL <= w.min_ttl <= w.max_ttl <= MAX_TTL
        }),
{
}

/// A patch of which some field is refused changes no setting, whatever its other
/// fields say.
pub proof fn refused_patches_change_nothing(
    v: SettingsView,
    p: SettingsPatch,
    hash: Option<Option<Seq<char>>>,
    keys: Seq<Seq<char>>,
)
    requires
        patched(v, p, hash, keys).1 is Some,
    ensures
        patched(v, p, hash, keys).0 == v,
{
}

}
