//! The name and the address under which the web interface is reached.
use vstd::prelude::*;
use vstd::slice::*;
use vstd::string::*;

use crate::config::{opt_text, Config, CustomRecordConfig};
use crate::ip;
use crate::ip::{ip_text, v4_of_text, IpAddr, Ipv4, Ipv6, SocketAddr};
use crate::text;
use crate::text::{decimal, trim, trim_end_char};

verus! {

/// How many seconds the record of the web interface is valid.
pub const BUILTIN_PANEL_TTL: u32 = 60;

/// A setting from the environment: trimmed, without dots at its end, and none where
/// it is blank.
pub open spec fn env_value(value: Option<Seq<char>>) -> Option<Seq<char>> {
    match value {
        Some(v) => if trim(v).len() == 0 {
            None
        } else {
            Some(trim_end_char(trim(v), '.'))
        },
        None => None,
    }
}

/// A setting from the environment.
pub fn trim_env(value: &Option<String>) -> (r: Option<String>)
    ensures
        opt_text(r) == env_value(opt_text(*value)),
{
    match value {
        Some(v) => {
            let cs = text::chars_of(v.as_str());
            let t = text::trimmed(cs.as_slice());
            if t.len() == 0 {
                None
            } else {
                Some(text::string_of(text::trimmed_end_char(t, '.')))
            }
        },
        None => None,
    }
}

/// The address stands for all addresses.
pub open spec fn unspecified(a: Ipv4) -> bool {
    a.a == 0 && a.b == 0 && a.c == 0 && a.d == 0
}

/// The address is one of the machine itself.
pub open spec fn loopback_v4(a: Ipv4) -> bool {
    a.a == 127
}

/// The address is that of the machine itself.
pub open spec fn loopback_v6(a: Ipv6) -> bool {
    a.s0 == 0 && a.s1 == 0 && a.s2 == 0 && a.s3 == 0 && a.s4 == 0 && a.s5 == 0 && a.s6 == 0 && a.s7 == 1
}

/// The IPv4 address that others reach, where there is one.
pub open spec fn outer_v4(a: SocketAddr) -> Option<Ipv4> {
    match a.ip {
        IpAddr::V4(v) => if !unspecified(v) && !loopback_v4(v) {
            Some(v)
        } else {
            None
        },
        IpAddr::V6(_) => None,
    }
}

/// The IPv4 address of the machine itself, where it is bound to such an address.
pub open spec fn inner_v4(a: SocketAddr) -> Option<Ipv4> {
    match a.ip {
        IpAddr::V4(v) => if loopback_v4(v) {
            Some(v)
        } else {
            None
        },
        IpAddr::V6(v) => if loopback_v6(v) {
            Some(Ipv4 { a: 127, b: 0, c: 0, d: 1 })
        } else {
            None
        },
    }
}

fn is_unspecified(a: &Ipv4) -> (r: bool)
    ensures
        r == unspecified(*a),
{
    a.a == 0 && a.b == 0 && a.c == 0 && a.d == 0
}

fn non_loopback_ipv4(a: &SocketAddr) -> (r: Option<Ipv4>)
    ensures
        r == outer_v4(*a),
{
    match a.ip {
        IpAddr::V4(v) => if !is_unspecified(&v) && v.a != 127 {
            Some(v)
        } else {
            None
        },
        IpAddr::V6(_) => None,
    }
}

fn loopback_ipv4(a: &SocketAddr) -> (r: Option<Ipv4>)
    ensures
        r == inner_v4(*a),
{
    match a.ip {
        IpAddr::V4(v) => if v.a == 127 {
            Some(v)
        } else {
            None
        },
        IpAddr::V6(v) => if v.s0 == 0 && v.s1 == 0 && v.s2 == 0 && v.s3 == 0 && v.s4 == 0 && v.s5 == 0 && v.s6 == 0
            && v.s7 == 1 {
            Some(Ipv4 { a: 127, b: 0, c: 0, d: 1 })
        } else {
            None
        },
    }
}

/// The address from the environment, where it is one.
pub open spec fn env_ipv4(value: Option<Seq<char>>) -> Option<Ipv4> {
    match env_value(value) {
        Some(v) => v4_of_text(v),
        None => None,
    }
}

/// The first value that is there.
pub open spec fn or_v4(a: Option<Ipv4>, b: Option<Ipv4>) -> Option<Ipv4> {
    match a {
        Some(v) => Some(v),
        None => b,
    }
}

/// The address that was set: in the environment, or else in the configuration; one
/// for all addresses does not count.
pub open spec fn set_ipv4(env: Option<Seq<char>>, config: Option<Ipv4>) -> Option<Ipv4> {
    match or_v4(env_ipv4(env), config) {
        Some(v) => if unspecified(v) {
            None
        } else {
            Some(v)
        },
        None => None,
    }
}

/// The address of the web interface: the one that was set, or one that it or the
/// resolver is bound to and others reach, or the one of the machine towards the
/// Internet, or one of the machine itself.
pub open spec fn shown_ipv4(
    env: Option<Seq<char>>,
    config: Option<Ipv4>,
    api: SocketAddr,
    dns: SocketAddr,
    detected: Option<Ipv4>,
) -> Option<Ipv4> {
    or_v4(
        set_ipv4(env, config),
        or_v4(outer_v4(api), or_v4(outer_v4(dns), or_v4(detected, or_v4(inner_v4(api), inner_v4(dns))))),
    )
}

fn env_panel_ipv4(env: &Option<String>) -> (r: Option<Ipv4>)
    ensures
        r == env_ipv4(opt_text(*env)),
{
    match trim_env(env) {
        Some(v) => {
            let cs = text::chars_of(v.as_str());
            ip::parse_v4(cs.as_slice())
        },
        None => None,
    }
}

/// The address of the web interface. `detected` is the address of the machine
/// towards the Internet.
pub fn panel_ipv4(config: &Config, env_ip: &Option<String>, detected: Option<Ipv4>) -> (r: Option<Ipv4>)
    ensures
        r == shown_ipv4(
            opt_text(*env_ip),
            config.panel.ipv4,
            config.api.bind_addr,
            config.dns.bind_addr,
            detected,
        ),
{
    let set = match env_panel_ipv4(env_ip) {
        Some(v) => Some(v),
        None => config.panel.ipv4,
    };
    if let Some(v) = set {
        if !is_unspecified(&v) {
            return Some(v);
        }
    }
    if let Some(v) = non_loopback_ipv4(&config.api.bind_addr) {
        return Some(v);
    }
    if let Some(v) = non_loopback_ipv4(&config.dns.bind_addr) {
        return Some(v);
    }
    if let Some(v) = detected {
        return Some(v);
    }
    if let Some(v) = loopback_ipv4(&config.api.bind_addr) {
        return Some(v);
    }
    loopback_ipv4(&config.dns.bind_addr)
}

/// The name of the web interface: from the environment, or else from the
/// configuration.
pub open spec fn shown_domain(env: Option<Seq<char>>, config: Seq<char>) -> Seq<char> {
    match env_value(env) {
        Some(d) => d,
        None => config,
    }
}

/// The name of the web interface.
pub fn panel_domain(config: &Config, env_domain: &Option<String>) -> (r: String)
    ensures
        r@ == shown_domain(opt_text(*env_domain), config.panel.domain@),
{
    match trim_env(env_domain) {
        Some(d) => d,
        None => config.panel.domain.clone(),
    }
}

/// The records that lead to the web interface: none where that is switched off or
/// no address is known.
pub fn builtin_panel_records(
    config: &Config,
    env_domain: &Option<String>,
    env_ip: &Option<String>,
    detected: Option<Ipv4>,
) -> (r: Vec<CustomRecordConfig>)
    ensures
        ({
            let a = shown_ipv4(
                opt_text(*env_ip),
                config.panel.ipv4,
                config.api.bind_addr,
                config.dns.bind_addr,
                detected,
            );
            if config.panel.enabled && a is Some {
                &&& r@.len() == 1
                &&& r@[0].domain@ == shown_domain(opt_text(*env_domain), config.panel.domain@)
                &&& r@[0].record_type@ == "A"@
                &&& r@[0].value@ == ip_text(IpAddr::V4(a->0))
                &&& r@[0].ttl == BUILTIN_PANEL_TTL
            } else {
                r@.len() == 0
            }
        }),
{
    let mut records: Vec<CustomRecordConfig> = Vec::new();
    if !config.panel.enabled {
        return records;
    }
    let domain = panel_domain(config, env_domain);
    if let Some(a) = panel_ipv4(config, env_ip, detected) {
        let value = ip::format_ip(&IpAddr::V4(a));
        records.push(
            CustomRecordConfig { domain, record_type: "A".to_string(), value, ttl: BUILTIN_PANEL_TTL },
        );
    }
    records
}

/// The address at which the web interface is opened: the one that was set, or the
/// name and, unless it is 80, the port.
pub open spec fn shown_url(env: Option<Seq<char>>, config: Option<Seq<char>>, domain: Seq<char>, port: u16) -> Seq<
    char,
> {
    match env_value(env) {
        Some(u) => u,
        None => match config {
            Some(u) => u,
            None => if port == 80 {
                "http://"@ + domain
            } else {
                "http://"@ + domain + seq![':'] + decimal(port as nat)
            },
        },
    }
}

/// The address at which the web interface is opened.
pub fn panel_url(config: &Config, domain: &str, env_url: &Option<String>) -> (r: String)
    ensures
        r@ == shown_url(opt_text(*env_url), opt_text(config.panel.url), domain@, config.api.bind_addr.port),
{
    if let Some(u) = trim_env(env_url) {
        return u;
    }
    if let Some(u) = &config.panel.url {
        return u.clone();
    }
    let mut url = String::new();
    url.append("http://");
    url.append(domain);
    let port = config.api.bind_addr.port;
    if port != 80 {
        url.push(':');
        text::push_decimal(&mut url, port as u64);
        assert(url@ =~= "http://"@ + domain@ + seq![':'] + decimal(port as nat));
    } else {
        assert(url@ =~= "http://"@ + domain@);
    }
    url
}

/// Others are led to an address at which nothing listens for them: the web interface
/// is bound to the machine itself, and its record names another address.
pub fn unreachable_panel(config: &Config, value: &str) -> (r: bool)
    ensures
        r == ((match config.api.bind_addr.ip {
            IpAddr::V4(v) => loopback_v4(v),
            IpAddr::V6(v) => loopback_v6(v),
        }) && (match v4_of_text(value@) {
            Some(v) => !loopback_v4(v),
            None => false,
        })),
{
    let cs = text::chars_of(value);
    loopback_ipv4(&config.api.bind_addr).is_some() && match ip::parse_v4(cs.as_slice()) {
        Some(v) => v.a != 127,
        None => false,
    }
}

}
