//! What a patch does to the configuration, field by field.
use vstd::prelude::*;
use vstd::string::*;

use crate::api::settings::{
    changes, first_invalid, hot_names, if_there, masked, names, panel_name, patch_keys, patched, rest_stays,
    restart_names, settings_of, SettingsChange, SettingsPatch,
};
use crate::clients::client_key;
use crate::config::Config;
use crate::dns::answer_laws::lemma_trim_end_char;
use crate::ip::socket_of_text;
use crate::order::ascending;
use crate::text::{lower, texts, trim, trim_end_char};

verus! {

/// After a patch that was accepted, every setting that the patch holds has the value from
/// the patch, and every other one is as before. Texts are kept without blanks around them,
/// addresses are read, the name of the panel is in lower case and without dots at its end,
/// and clients are kept once each, in canonical form and in order.
pub proof fn accepted_patches_set_their_fields(
    a: Config,
    b: Config,
    p: SettingsPatch,
    hash: Option<Option<Seq<char>>>,
    keys: Seq<Seq<char>>,
)
    requires
        rest_stays(a, b),
        patch_keys(p, keys),
        patched(settings_of(a), p, hash, keys) == (settings_of(b), None::<Seq<char>>),
    ensures
        p.upstream matches Some(u) ==> b.upstream@ == u@,
        p.upstream is None ==> b.upstream@ == a.upstream@,
        p.zones matches Some(z) ==> b.zones@ == z@,
        p.zones is None ==> b.zones@ == a.zones@,
        p.dns_min_ttl matches Some(n) ==> b.dns.min_ttl == n,
        p.dns_min_ttl is None ==> b.dns.min_ttl == a.dns.min_ttl,
        p.dns_max_ttl matches Some(n) ==> b.dns.max_ttl == n,
        p.dns_max_ttl is None ==> b.dns.max_ttl == a.dns.max_ttl,
        p.dns_log_ignore matches Some(l) ==> texts(b.dns.log_ignore@) == texts(l@),
        p.dns_log_ignore is None ==> texts(b.dns.log_ignore@) == texts(a.dns.log_ignore@),
        p.dns_cache_size matches Some(n) ==> b.dns.cache_size == n,
        p.dns_cache_size is None ==> b.dns.cache_size == a.dns.cache_size,
        p.dns_strip_ecs matches Some(x) ==> b.dns.strip_ecs == x,
        p.dns_strip_ecs is None ==> b.dns.strip_ecs == a.dns.strip_ecs,
        p.dns_dnssec matches Some(x) ==> b.dns.dnssec == x,
        p.dns_dnssec is None ==> b.dns.dnssec == a.dns.dnssec,
        p.dns_bind_addr matches Some(s) ==> socket_of_text(s@) == Some(b.dns.bind_addr),
        p.dns_bind_addr is None ==> b.dns.bind_addr == a.dns.bind_addr,
        p.api_bind_addr matches Some(s) ==> socket_of_text(s@) == Some(b.api.bind_addr),
        p.api_bind_addr is None ==> b.api.bind_addr == a.api.bind_addr,
        p.api_key matches Some(Some(k)) ==> (b.api.api_key matches Some(x) && x@ == trim(k@)),
        p.api_key == Some(None::<String>) ==> b.api.api_key is None,
        p.api_key is None ==> crate::config::opt_text(b.api.api_key) == crate::config::opt_text(a.api.api_key),
        hash matches Some(Some(h)) ==> (b.api.password_hash matches Some(x) && x@ == h),
        hash == Some(None::<Seq<char>>) ==> b.api.password_hash is None,
        hash is None ==> crate::config::opt_text(b.api.password_hash) == crate::config::opt_text(a.api.password_hash),
        p.web_dir matches Some(Some(d)) ==> (b.web_dir matches Some(x) && x@ == d@),
        p.web_dir == Some(None::<String>) ==> b.web_dir is None,
        p.web_dir is None ==> crate::config::opt_text(b.web_dir) == crate::config::opt_text(a.web_dir),
        p.log_retention_days matches Some(n) ==> b.storage.log_retention_days == n,
        p.log_retention_days is None ==> b.storage.log_retention_days == a.storage.log_retention_days,
        p.blocklist_enabled matches Some(x) ==> b.blocklist.enabled == x,
        p.blocklist_enabled is None ==> b.blocklist.enabled == a.blocklist.enabled,
        p.blocklist_decision_cache_size matches Some(n) ==> b.blocklist.decision_cache_size == n,
        p.blocklist_decision_cache_size is None ==> b.blocklist.decision_cache_size == a.blocklist.decision_cache_size,
        p.blocklist_client_bypass matches Some(l) ==> forall|k: Seq<char>|
            texts(b.blocklist.client_bypass@).contains(k) <==> exists|i: int|
                0 <= i < l@.len() && client_key((#[trigger] l@[i])@) == Some(k),
        p.blocklist_client_bypass is Some ==> ascending(texts(b.blocklist.client_bypass@)),
        p.blocklist_client_bypass is None ==> texts(b.blocklist.client_bypass@) == texts(a.blocklist.client_bypass@),
        p.debug_logging matches Some(x) ==> b.debug_logging == x,
        p.debug_logging is None ==> b.debug_logging == a.debug_logging,
        p.panel_enabled matches Some(x) ==> b.panel.enabled == x,
        p.panel_enabled is None ==> b.panel.enabled == a.panel.enabled,
        p.panel_ipv4 matches Some(x) ==> b.panel.ipv4 == x,
        p.panel_ipv4 is None ==> b.panel.ipv4 == a.panel.ipv4,
        p.panel_url matches Some(Some(u)) ==> (b.panel.url matches Some(x) && x@ == trim(u@)),
        p.panel_url == Some(None::<String>) ==> b.panel.url is None,
        p.panel_url is None ==> crate::config::opt_text(b.panel.url) == crate::config::opt_text(a.panel.url),
        p.panel_domain is None ==> b.panel.domain@ == a.panel.domain@,
        p.panel_domain matches Some(d) ==> b.panel.domain@ == lower(trim_end_char(trim(d@), '.')),
        b.dns.cache_max_mb == a.dns.cache_max_mb,
        b.storage.path == a.storage.path,
        b.blocklist.lists == a.blocklist.lists,
        b.blocklist.wildcard_block == a.blocklist.wildcard_block,
        b.blocklist.whitelist == a.blocklist.whitelist,
        b.blocklist.profiles == a.blocklist.profiles,
        b.allowlist == a.allowlist,
        b.custom_records == a.custom_records,
        b.proxy == a.proxy,
{
    assert(settings_of(b) == patched(settings_of(a), p, hash, keys).0);
    if let Some(l) = p.blocklist_client_bypass {
        lemma_bypass(l@);
        assert(keys == settings_of(b).client_bypass);
        let tv = texts(l@);
        let all = crate::api::settings::keys_of(tv);
        assert forall|k: Seq<char>| keys.contains(k) <==> exists|i: int|
            0 <= i < l@.len() && client_key((#[trigger] l@[i])@) == Some(k) by {
            assert(keys.to_set().contains(k) == keys.contains(k));
            assert(all.to_set().contains(k) == all.contains(k));
            if all.contains(k) {
                let i = choose|i: int| 0 <= i < all.len() && all[i] == k;
                assert(tv[i] == l@[i]@);
                assert(client_key(l@[i]@) == Some(k));
            }
            if exists|i: int| 0 <= i < l@.len() && client_key((#[trigger] l@[i])@) == Some(k) {
                let i = choose|i: int| 0 <= i < l@.len() && client_key((#[trigger] l@[i])@) == Some(k);
                assert(tv[i] == l@[i]@);
                assert(all[i] == k);
            }
        }
    }
}

/// The text names a client.
#[verifier::opaque]
pub open spec fn names_client(e: Seq<char>) -> bool {
    client_key(e) is Some
}

proof fn lemma_invalid_step(tv: Seq<Seq<char>>, i: int)
    requires
        0 <= i < tv.len(),
    ensures
        names_client(tv[i]) ==> first_invalid(tv, i) == first_invalid(tv, i + 1),
        !names_client(tv[i]) ==> first_invalid(tv, i) == Some(tv[i]),
{
    reveal(names_client);
}

proof fn lemma_first_invalid(tv: Seq<Seq<char>>, i: int)
    requires
        0 <= i,
    ensures
        first_invalid(tv, i) is None <==> forall|j: int| i <= j < tv.len() ==> names_client(#[trigger] tv[j]),
    decreases tv.len() - i,
{
    if i < tv.len() {
        lemma_invalid_step(tv, i);
        lemma_first_invalid(tv, i + 1);
    }
}

/// A patch names its clients exactly if each entry of it is a client.
proof fn lemma_bypass(l: Seq<String>)
    ensures
        first_invalid(texts(l), 0) is None <==> forall|j: int| 0 <= j < l.len() ==> client_key((#[trigger] l[j])@) is Some,
{
    reveal(names_client);
    let tv = texts(l);
    lemma_first_invalid(tv, 0);
    if first_invalid(tv, 0) is None {
        assert forall|j: int| 0 <= j < l.len() implies client_key((#[trigger] l[j])@) is Some by {
            assert(names_client(tv[j]));
        }
    }
    if forall|j: int| 0 <= j < l.len() ==> client_key((#[trigger] l[j])@) is Some {
        assert forall|j: int| 0 <= j < tv.len() implies names_client(#[trigger] tv[j]) by {
            assert(tv[j] == l[j]@);
        }
    }
}

/// A text of blanks and dots, which names no panel.
pub open spec fn names_nothing(d: Seq<char>) -> bool {
    forall|i: int| 0 <= i < trim(d).len() ==> #[trigger] trim(d)[i] == '.'
}

/// A patch is refused exactly if it holds a blank key, lifetimes outside one minute to one
/// hour or in the wrong order, an entry that names no client, an address that is none, a
/// decision cache without room, no resolver, a panel without a name, or a blank address of
/// the panel.
pub proof fn patches_are_refused_for_a_reason(
    a: Config,
    p: SettingsPatch,
    hash: Option<Option<Seq<char>>>,
    keys: Seq<Seq<char>>,
)
    ensures
        ({
            let lo = if p.dns_min_ttl is Some { p.dns_min_ttl->0 } else { a.dns.min_ttl };
            let hi = if p.dns_max_ttl is Some { p.dns_max_ttl->0 } else { a.dns.max_ttl };
            patched(settings_of(a), p, hash, keys).1 is Some <==> {
                ||| p.api_key matches Some(Some(k)) && trim(k@).len() == 0
                ||| (p.dns_min_ttl is Some || p.dns_max_ttl is Some) && !(60 <= lo <= hi <= 3600)
                ||| p.blocklist_client_bypass matches Some(l) && exists|i: int|
                    0 <= i < l@.len() && client_key((#[trigger] l@[i])@) is None
                ||| p.dns_bind_addr matches Some(s) && socket_of_text(s@) is None
                ||| p.api_bind_addr matches Some(s) && socket_of_text(s@) is None
                ||| p.blocklist_decision_cache_size == Some(0usize)
                ||| p.upstream matches Some(u) && u@.len() == 0
                ||| p.panel_domain matches Some(d) && names_nothing(d@)
                ||| p.panel_url matches Some(Some(u)) && trim(u@).len() == 0
            }
        }),
        patched(settings_of(a), p, hash, keys).1 is Some ==> patched(settings_of(a), p, hash, keys).0 == settings_of(a),
{
    if let Some(l) = p.blocklist_client_bypass {
        lemma_bypass(l@);
    }
    if let Some(d) = p.panel_domain {
        let t = trim(d@);
        lemma_trim_end_char(t, '.');
        if names_nothing(d@) {
            let u = trim_end_char(t, '.');
            if u.len() > 0 {
                assert(t.subrange(0, u.len() as int) == u);
                assert(u[u.len() - 1] == t[u.len() - 1]);
            }
        }
        assert(panel_name(d@).len() == trim_end_char(t, '.').len());
    }
}

proof fn lemma_added(names_before: Seq<Seq<char>>, there: bool, name: Seq<char>, n: Seq<char>)
    ensures
        (names_before + if_there(there, name)).contains(n) <==> names_before.contains(n) || (there && n == name),
{
    let a = names_before;
    let b = if_there(there, name);
    if a.contains(n) {
        let i = choose|i: int| 0 <= i < a.len() && a[i] == n;
        assert((a + b)[i] == n);
    }
    if there && n == name {
        assert((a + b)[a.len() as int] == n);
    }
    if (a + b).contains(n) {
        let i = choose|i: int| 0 <= i < (a + b).len() && (a + b)[i] == n;
        if i < a.len() {
            assert(a[i] == n);
        }
    }
}

/// The names of what a patch changes at once are those of the fields that it holds and
/// that take effect at once.
#[verifier::rlimit(60)]
pub proof fn fields_that_take_effect_at_once_are_named(p: SettingsPatch, n: Seq<char>)
    ensures
        hot_names(p).contains(n) <==> {
            ||| n == "api_key"@ && p.api_key is Some
            ||| n == "password"@ && p.password is Some
            ||| n == "dns_min_ttl"@ && p.dns_min_ttl is Some
            ||| n == "dns_max_ttl"@ && p.dns_max_ttl is Some
            ||| n == "dns_log_ignore"@ && p.dns_log_ignore is Some
            ||| n == "web_dir"@ && p.web_dir is Some
            ||| n == "log_retention_days"@ && p.log_retention_days is Some
            ||| n == "blocklist_enabled"@ && p.blocklist_enabled is Some
            ||| n == "blocklist_client_bypass"@ && p.blocklist_client_bypass is Some
            ||| n == "debug_logging"@ && p.debug_logging is Some
        },
{
    let e = Seq::<Seq<char>>::empty();
    let h1 = if_there(p.api_key is Some, "api_key"@);
    lemma_added(e, p.api_key is Some, "api_key"@, n);
    assert(e + h1 =~= h1);
    let h2 = h1 + if_there(p.password is Some, "password"@);
    lemma_added(h1, p.password is Some, "password"@, n);
    let h3 = h2 + if_there(p.dns_min_ttl is Some, "dns_min_ttl"@);
    lemma_added(h2, p.dns_min_ttl is Some, "dns_min_ttl"@, n);
    let h4 = h3 + if_there(p.dns_max_ttl is Some, "dns_max_ttl"@);
    lemma_added(h3, p.dns_max_ttl is Some, "dns_max_ttl"@, n);
    let h5 = h4 + if_there(p.dns_log_ignore is Some, "dns_log_ignore"@);
    lemma_added(h4, p.dns_log_ignore is Some, "dns_log_ignore"@, n);
    let h6 = h5 + if_there(p.web_dir is Some, "web_dir"@);
    lemma_added(h5, p.web_dir is Some, "web_dir"@, n);
    let h7 = h6 + if_there(p.log_retention_days is Some, "log_retention_days"@);
    lemma_added(h6, p.log_retention_days is Some, "log_retention_days"@, n);
    let h8 = h7 + if_there(p.blocklist_enabled is Some, "blocklist_enabled"@);
    lemma_added(h7, p.blocklist_enabled is Some, "blocklist_enabled"@, n);
    let h9 = h8 + if_there(p.blocklist_client_bypass is Some, "blocklist_client_bypass"@);
    lemma_added(h8, p.blocklist_client_bypass is Some, "blocklist_client_bypass"@, n);
    lemma_added(h9, p.debug_logging is Some, "debug_logging"@, n);
    assert(hot_names(p) == h9 + if_there(p.debug_logging is Some, "debug_logging"@));
}

/// The names of what a patch changes after a restart are those of the other fields that it
/// holds.
#[verifier::rlimit(60)]
pub proof fn fields_that_need_a_restart_are_named(p: SettingsPatch, n: Seq<char>)
    ensures
        restart_names(p).contains(n) <==> {
            ||| n == "dns_bind_addr"@ && p.dns_bind_addr is Some
            ||| n == "dns_cache_size"@ && p.dns_cache_size is Some
            ||| n == "dns_strip_ecs"@ && p.dns_strip_ecs is Some
            ||| n == "dns_dnssec"@ && p.dns_dnssec is Some
            ||| n == "blocklist_decision_cache_size"@ && p.blocklist_decision_cache_size is Some
            ||| n == "api_bind_addr"@ && p.api_bind_addr is Some
            ||| n == "upstream"@ && p.upstream is Some
            ||| n == "zones"@ && p.zones is Some
            ||| n == "panel_enabled"@ && p.panel_enabled is Some
            ||| n == "panel_domain"@ && p.panel_domain is Some
            ||| n == "panel_ipv4"@ && p.panel_ipv4 is Some
            ||| n == "panel_url"@ && p.panel_url is Some
        },
{
    let e = Seq::<Seq<char>>::empty();
    let r1 = if_there(p.dns_bind_addr is Some, "dns_bind_addr"@);
    lemma_added(e, p.dns_bind_addr is Some, "dns_bind_addr"@, n);
    assert(e + r1 =~= r1);
    let r2 = r1 + if_there(p.dns_cache_size is Some, "dns_cache_size"@);
    lemma_added(r1, p.dns_cache_size is Some, "dns_cache_size"@, n);
    let r3 = r2 + if_there(p.dns_strip_ecs is Some, "dns_strip_ecs"@);
    lemma_added(r2, p.dns_strip_ecs is Some, "dns_strip_ecs"@, n);
    let r4 = r3 + if_there(p.dns_dnssec is Some, "dns_dnssec"@);
    lemma_added(r3, p.dns_dnssec is Some, "dns_dnssec"@, n);
    let r5 = r4 + if_there(p.blocklist_decision_cache_size is Some, "blocklist_decision_cache_size"@);
    lemma_added(r4, p.blocklist_decision_cache_size is Some, "blocklist_decision_cache_size"@, n);
    let r6 = r5 + if_there(p.api_bind_addr is Some, "api_bind_addr"@);
    lemma_added(r5, p.api_bind_addr is Some, "api_bind_addr"@, n);
    let r7 = r6 + if_there(p.upstream is Some, "upstream"@);
    lemma_added(r6, p.upstream is Some, "upstream"@, n);
    let r8 = r7 + if_there(p.zones is Some, "zones"@);
    lemma_added(r7, p.zones is Some, "zones"@, n);
    let r9 = r8 + if_there(p.panel_enabled is Some, "panel_enabled"@);
    lemma_added(r8, p.panel_enabled is Some, "panel_enabled"@, n);
    let r10 = r9 + if_there(p.panel_domain is Some, "panel_domain"@);
    lemma_added(r9, p.panel_domain is Some, "panel_domain"@, n);
    let r11 = r10 + if_there(p.panel_ipv4 is Some, "panel_ipv4"@);
    lemma_added(r10, p.panel_ipv4 is Some, "panel_ipv4"@, n);
    lemma_added(r11, p.panel_url is Some, "panel_url"@, n);
    assert(restart_names(p) == r11 + if_there(p.panel_url is Some, "panel_url"@));
}

/// What is reported of an accepted patch is what takes effect now: both lifetimes where
/// one was given, and the switches and clients that were given.
pub proof fn reported_changes_take_effect(a: Config, b: Config, p: SettingsPatch, c: SettingsChange)
    requires
        changes(p, settings_of(a), settings_of(b), c),
    ensures
        names(c.hot_changed@) == hot_names(p),
        names(c.restart_changed@) == restart_names(p),
        c.ttl_bounds is Some <==> p.dns_min_ttl is Some || p.dns_max_ttl is Some,
        c.ttl_bounds matches Some(t) ==> t.0 == b.dns.min_ttl && t.1 == b.dns.max_ttl,
        c.blocklist_enabled == p.blocklist_enabled,
        c.debug_logging == p.debug_logging,
        c.client_bypass is Some <==> p.blocklist_client_bypass is Some,
        c.client_bypass matches Some(k) ==> texts(k@) == texts(b.blocklist.client_bypass@),
{
}

/// No secret is shown: where there is one, three stars are.
pub proof fn shown_secrets_tell_nothing(s: Option<Seq<char>>, t: Option<Seq<char>>)
    ensures
        masked(s) is Some <==> s is Some,
        s is Some && t is Some ==> masked(s) == masked(t),
        masked(s) matches Some(m) ==> m == seq!['*', '*', '*'],
{
    reveal_strlit("***");
    assert("***"@ =~= seq!['*', '*', '*']);
}

}
