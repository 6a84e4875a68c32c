//! Where the panel is found.
use vstd::prelude::*;
use vstd::string::*;

use crate::ip::{v4_of_text, IpAddr, Ipv4, Ipv6, SocketAddr};
use crate::panel::{shown_domain, shown_ipv4, shown_url};
use crate::text::{decimal, trim, trim_end_char};

verus! {

/// What an environment variable holds: nothing where it is unset or blank, else its text
/// without white space around it and without dots at its end.
pub open spec fn is_set(env: Option<Seq<char>>) -> bool {
    env is Some && trim(env->0).len() > 0
}

/// An IPv4 address that other machines can reach: neither `0.0.0.0` nor in `127.0.0.0/8`.
pub open spec fn reachable(a: IpAddr, v: Ipv4) -> bool {
    a == IpAddr::V4(v) && v.a != 127 && v != (Ipv4 { a: 0, b: 0, c: 0, d: 0 })
}

/// The IPv4 address of a listener that this machine alone can reach.
pub open spec fn inward(a: IpAddr, v: Ipv4) -> bool {
    ||| a == IpAddr::V4(v) && v.a == 127
    ||| a == IpAddr::V6(Ipv6 { s0: 0, s1: 0, s2: 0, s3: 0, s4: 0, s5: 0, s6: 0, s7: 1 }) && v == (Ipv4 {
        a: 127,
        b: 0,
        c: 0,
        d: 1,
    })
}

/// The panel's address is the one in the environment, if that is one, else the configured
/// one, unless that is `0.0.0.0`; else the first that other machines can reach, of the
/// panel's listener, of the DNS listener and of what was detected; else that of a listener
/// on this machine alone.
pub proof fn panel_addresses_come_in_this_order(
    env: Option<Seq<char>>,
    config: Option<Ipv4>,
    api: SocketAddr,
    dns: SocketAddr,
    detected: Option<Ipv4>,
    v: Ipv4,
)
    ensures
        ({
            let r = shown_ipv4(env, config, api, dns, detected);
            let zero = Ipv4 { a: 0, b: 0, c: 0, d: 0 };
            let e = if is_set(env) {
                v4_of_text(trim_end_char(trim(env->0), '.'))
            } else {
                None
            };
            let unset = e == Some(zero) || (e is None && (config is None || config == Some(zero)));
            &&& e == Some(v) && v != zero ==> r == Some(v)
            &&& e is None && config == Some(v) && v != zero ==> r == Some(v)
            &&& unset && reachable(api.ip, v) ==> r == Some(v)
            &&& unset && (forall|w: Ipv4| !#[trigger] reachable(api.ip, w)) ==> {
                &&& reachable(dns.ip, v) ==> r == Some(v)
                &&& (forall|w: Ipv4| !#[trigger] reachable(dns.ip, w)) ==> {
                    &&& detected == Some(v) ==> r == Some(v)
                    &&& detected is None ==> {
                        &&& inward(api.ip, v) ==> r == Some(v)
                        &&& (forall|w: Ipv4| !#[trigger] inward(api.ip, w)) && inward(dns.ip, v) ==> r == Some(v)
                        &&& (forall|w: Ipv4| !#[trigger] inward(api.ip, w)) && (forall|w: Ipv4|
                            !#[trigger] inward(dns.ip, w)) ==> r is None
                    }
                }
            }
        }),
{
    lemma_kinds(api.ip);
    lemma_kinds(dns.ip);
}

proof fn lemma_kinds(a: IpAddr)
    ensures
        a is V4 && a->V4_0.a != 127 && a->V4_0 != (Ipv4 { a: 0, b: 0, c: 0, d: 0 }) ==> reachable(a, a->V4_0),
        a is V4 && a->V4_0.a == 127 ==> inward(a, a->V4_0),
        a == IpAddr::V6(Ipv6 { s0: 0, s1: 0, s2: 0, s3: 0, s4: 0, s5: 0, s6: 0, s7: 1 }) ==> inward(
            a,
            Ipv4 { a: 127, b: 0, c: 0, d: 1 },
        ),
{
}

/// The environment beats the configuration; without either the panel is found over plain
/// HTTP under its domain, with the port unless it is 80.
pub proof fn panel_urls_name_domain_and_port(
    env: Option<Seq<char>>,
    config: Option<Seq<char>>,
    domain: Seq<char>,
    port: u16,
)
    ensures
        is_set(env) ==> shown_url(env, config, domain, port) == trim_end_char(trim(env->0), '.') && shown_domain(env, domain)
            == trim_end_char(trim(env->0), '.'),
        !is_set(env) ==> shown_domain(env, domain) == domain,
        !is_set(env) && config is Some ==> shown_url(env, config, domain, port) == config->0,
        !is_set(env) && config is None && port == 80 ==> shown_url(env, config, domain, port) == "http://"@ + domain,
        !is_set(env) && config is None && port != 80 ==> shown_url(env, config, domain, port) == "http://"@ + domain + ":"@
            + decimal(port as nat),
{
    reveal_strlit(":");
    assert(":"@ =~= seq![':']);
}

}
