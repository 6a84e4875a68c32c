use ferrite::api::settings::{
    apply_patch, masked_secrets, normalize_client_bypass, update_settings, SettingsPatch,
};
use ferrite::api::auth::verify_password;
use ferrite::blocklist::engine::Blocklist;
use ferrite::config::{Config, EgressConfig, RuleConfig, UpstreamConfig};
use ferrite::dns::cache::{DnsCache, MAX_TTL, MIN_TTL};
use ferrite::error::FeriteError;
use ferrite::ip::{format_ip, format_socket_addr, parse_socket_addr, IpAddr, Ipv4};
use ferrite::panel::{builtin_panel_records, panel_domain, panel_ipv4, panel_url, trim_env, unreachable_panel, BUILTIN_PANEL_TTL};
use ferrite::startup::{allowed_count, highest_id, load_custom_entries, retention_cutoff, set_password};

fn config() -> Config {
    Config::with_data_dir("/data")
}

fn message(e: FeriteError) -> String {
    match e {
        FeriteError::Config(m) => m,
        other => panic!("unexpected {other:?}"),
    }
}

fn v4(a: u8, b: u8, c: u8, d: u8) -> Ipv4 {
    Ipv4 { a, b, c, d }
}

#[test]
fn get_settings_masks_secret_fields_but_keeps_shape_stable() {
    let mut cfg = config();
    cfg.api.api_key = Some("secret-api-key".to_string());
    cfg.api.password_hash = Some("$argon2id$secret-hash".to_string());
    assert_eq!(masked_secrets(&cfg.api), (Some("***"), Some("***")));

    cfg.api.api_key = None;
    cfg.api.password_hash = None;
    assert_eq!(masked_secrets(&cfg.api), (None, None));
}

#[test]
fn get_settings_treats_blank_secret_fields_as_unset() {
    let mut cfg = config();
    cfg.api.api_key = Some("   ".to_string());
    cfg.api.password_hash = Some("".to_string());
    assert_eq!(masked_secrets(&cfg.api), (None, None));
}

#[test]
fn hot_settings_patch_updates_runtime_state_and_persists_config() {
    let mut cfg = config();
    let mut cache = DnsCache::new(8, 60, 3600);
    let log_ignore = vec!["*.lan".to_string(), "fe.te".to_string()];

    let change = update_settings(
        &mut cfg,
        SettingsPatch {
            api_key: Some(Some("new-key".to_string())),
            dns_min_ttl: Some(120),
            dns_max_ttl: Some(240),
            dns_log_ignore: Some(log_ignore.clone()),
            web_dir: Some(Some("/web/dist".to_string())),
            log_retention_days: Some(14),
            blocklist_enabled: Some(false),
            blocklist_client_bypass: Some(vec![
                "::ffff:192.0.2.10".to_string(),
                "AA-BB-CC-DD-EE-FF".to_string(),
            ]),
            ..Default::default()
        },
    )
    .unwrap();

    assert!(change.any());
    assert!(!change.needs_restart());
    let (min, max) = change.ttl_bounds.unwrap();
    cache.set_ttl_bounds(min, max);
    assert_eq!(cache.min_ttl_secs(), 120);

    assert_eq!(cfg.api.api_key.as_deref(), Some("new-key"));
    assert_eq!(cfg.dns.min_ttl, 120);
    assert_eq!(cfg.dns.max_ttl, 240);
    assert_eq!(cfg.dns.log_ignore, log_ignore);
    assert_eq!(cfg.storage.log_retention_days, 14);
    assert_eq!(cfg.web_dir.as_deref(), Some("/web/dist"));
    assert!(!cfg.blocklist.enabled);
    assert_eq!(
        cfg.blocklist.client_bypass,
        vec!["192.0.2.10".to_string(), "aa:bb:cc:dd:ee:ff".to_string()]
    );

    let base = config();
    let mut blocklist = Blocklist::new(base.blocklist, base.allowlist);
    blocklist.set_blocking_enabled(change.blocklist_enabled.unwrap());
    blocklist.set_client_bypass(&change.client_bypass.unwrap());
    assert!(!blocklist.blocking_enabled());
    assert!(blocklist.client_bypasses_blocking("192.0.2.10", None));
    assert!(blocklist.client_bypasses_blocking("192.0.2.99", Some("aa:bb:cc:dd:ee:ff")));
}

#[test]
fn nullable_api_key_patch_clears_secret() {
    let mut cfg = config();
    cfg.api.api_key = Some("old-key".to_string());
    let change =
        update_settings(&mut cfg, SettingsPatch { api_key: Some(None), ..Default::default() }).unwrap();
    assert!(change.any());
    assert!(cfg.api.api_key.is_none());
}

#[test]
fn invalid_ttl_patch_is_rejected_without_mutating_runtime_config() {
    let mut cfg = config();
    let err = update_settings(
        &mut cfg,
        SettingsPatch { dns_min_ttl: Some(MAX_TTL), dns_max_ttl: Some(MIN_TTL), ..Default::default() },
    )
    .unwrap_err();
    assert!(message(err).contains("cannot be greater"));
    assert_eq!(cfg.dns.min_ttl, 60);
    assert_eq!(cfg.dns.max_ttl, 3600);
}

#[test]
fn blank_api_key_patch_is_rejected_without_persisting() {
    let mut cfg = config();
    let err = update_settings(
        &mut cfg,
        SettingsPatch { api_key: Some(Some("  ".to_string())), ..Default::default() },
    )
    .unwrap_err();
    assert!(message(err).contains("api_key cannot be empty"));
    assert!(cfg.api.api_key.is_none());
}

#[test]
fn invalid_client_bypass_patch_is_rejected_without_mutating_config() {
    let mut cfg = config();
    let err = update_settings(
        &mut cfg,
        SettingsPatch {
            blocklist_client_bypass: Some(vec!["not-an-ip-or-mac".to_string()]),
            ..Default::default()
        },
    )
    .unwrap_err();
    assert!(message(err).contains("invalid blocklist_client_bypass"));
    assert!(cfg.blocklist.client_bypass.is_empty());
    let blocklist = Blocklist::new(cfg.blocklist, cfg.allowlist);
    assert!(!blocklist.client_bypasses_blocking("192.0.2.10", None));
    assert!(normalize_client_bypass(&vec!["1.2.3.4".to_string()]).is_ok());
}

#[test]
fn one_refused_field_keeps_every_setting() {
    let mut cfg = config();
    let before = format!("{cfg:?}");
    let good = || SettingsPatch {
        api_key: Some(Some("k".to_string())),
        password: Some(None),
        log_retention_days: Some(3),
        blocklist_enabled: Some(false),
        debug_logging: Some(true),
        dns_cache_size: Some(7),
        panel_enabled: Some(false),
        panel_domain: Some("other.panel".to_string()),
        ..Default::default()
    };
    let bad = vec![
        SettingsPatch { dns_min_ttl: Some(3600), dns_max_ttl: Some(60), ..good() },
        SettingsPatch { dns_max_ttl: Some(MAX_TTL + 1), ..good() },
        SettingsPatch { blocklist_client_bypass: Some(vec!["nobody".to_string()]), ..good() },
        SettingsPatch { dns_bind_addr: Some("nowhere".to_string()), ..good() },
        SettingsPatch { blocklist_decision_cache_size: Some(0), ..good() },
        SettingsPatch { api_bind_addr: Some("nowhere".to_string()), ..good() },
        SettingsPatch { upstream: Some(vec![]), ..good() },
        SettingsPatch { panel_domain: Some(" . ".to_string()), ..good() },
        SettingsPatch { panel_url: Some(Some(" ".to_string())), ..good() },
        SettingsPatch { password: Some(Some(String::new())), ..good() },
    ];
    for patch in bad {
        assert!(update_settings(&mut cfg, patch).is_err());
        assert_eq!(format!("{cfg:?}"), before);
    }
    assert!(update_settings(&mut cfg, good()).is_ok());
    assert_eq!(cfg.api.api_key.as_deref(), Some("k"));
    assert_eq!(cfg.panel.domain, "other.panel");
}

#[test]
fn restart_settings_say_so() {
    let mut cfg = config();
    let change = update_settings(
        &mut cfg,
        SettingsPatch { dns_cache_size: Some(5), panel_domain: Some("panel.home".to_string()), ..Default::default() },
    )
    .unwrap();
    assert!(change.needs_restart());
    assert_eq!(cfg.dns.cache_size, 5);
    assert_eq!(cfg.panel.domain, "panel.home");
    let nothing = update_settings(&mut cfg, SettingsPatch::default()).unwrap();
    assert!(!nothing.any());
}

#[test]
fn a_new_password_is_stored_as_its_hash() {
    let mut cfg = config();
    let patch = SettingsPatch { password: Some(Some("pw".to_string())), ..Default::default() };
    update_settings(&mut cfg, patch).unwrap();
    assert!(verify_password("pw", cfg.api.password_hash.as_deref().unwrap()));
    let patch = SettingsPatch { password: Some(None), ..Default::default() };
    apply_patch(&mut cfg, patch, Some(None)).unwrap();
    assert!(cfg.api.password_hash.is_none());
}

#[test]
fn proxy_config_defaults_to_disabled_on_standard_ports() {
    let cfg = config();
    assert!(!cfg.proxy.enabled);
    assert_eq!(cfg.proxy.http_port, 80);
    assert_eq!(cfg.proxy.https_port, 443);
    assert_eq!(cfg.proxy.max_connections, 128);
    assert!(cfg.proxy.egresses.is_empty());
    assert!(cfg.proxy.rules.is_empty());
}

#[test]
fn minimal_config_toml_loads_with_defaults() {
    let mut cfg = config();
    cfg.dns.min_ttl = 120;
    cfg.api.bind_addr = parse_socket_addr("127.0.0.1:18080").unwrap();
    let cfg = cfg.normalized();

    assert_eq!(cfg.dns.min_ttl, 120);
    assert_eq!(cfg.dns.max_ttl, 3600);
    assert_eq!(cfg.dns.cache_size, 10_000);
    assert_eq!(format_socket_addr(&cfg.api.bind_addr), "127.0.0.1:18080");
    assert!(cfg.storage.path.ends_with("ferrite.db"));
    assert!(!cfg.upstream.is_empty());
    assert!(cfg.panel.enabled);
    assert_eq!(cfg.panel.domain, "fe.te");
}

#[test]
fn blank_api_secrets_are_treated_as_unset_and_not_saved() {
    let mut cfg = config();
    cfg.api.api_key = Some("   ".to_string());
    cfg.api.password_hash = Some("".to_string());
    let cfg = cfg.normalized();
    assert!(!cfg.api.has_api_key());
    assert!(!cfg.api.has_password());
    assert!(cfg.api.api_key.is_none());
    assert!(cfg.api.password_hash.is_none());

    let mut cfg = config();
    cfg.api.api_key = Some("   ".to_string());
    cfg.api.password_hash = Some("\t".to_string());
    let cfg = cfg.normalized();
    assert!(cfg.api.api_key.is_none() && cfg.api.password_hash.is_none());
    let mut cfg = config();
    cfg.api.api_key = Some(" k ".to_string());
    assert_eq!(cfg.api.api_key().as_deref(), Some("k"));
}

fn egress(id: &str, name: &str, kind: &str) -> EgressConfig {
    EgressConfig {
        id: id.to_string(),
        name: name.to_string(),
        enabled: true,
        kind: kind.to_string(),
        address: None,
        port: None,
        username: None,
        password: None,
        config: None,
        seg_position: None,
        buffer_kb: None,
        tx_buffer_kb: None,
    }
}

fn rule(pattern: &str, egress: &str) -> RuleConfig {
    RuleConfig { pattern: pattern.to_string(), egress: egress.to_string(), fail_closed: true, clients: vec![] }
}

#[test]
fn proxy_config_parses_egresses_and_rules_and_round_trips_toml() {
    let mut cfg = config();
    cfg.proxy.enabled = true;
    cfg.proxy.http_port = 8080;
    cfg.proxy.https_port = 8443;
    cfg.proxy.advertise_ipv4 = Some(v4(192, 168, 1, 10));
    let mut work = egress("Work", "Work SOCKS", "socks5");
    work.address = Some("10.0.0.1".to_string());
    work.port = Some(1080);
    cfg.proxy.egresses = vec![work];
    cfg.proxy.rules = vec![rule("*.Google.com", "work")];
    let cfg = cfg.normalized();

    assert!(cfg.proxy.enabled);
    assert_eq!(cfg.proxy.http_port, 8080);
    assert_eq!(format_ip(&IpAddr::V4(cfg.proxy.advertise_ipv4.unwrap())), "192.168.1.10");
    assert_eq!(cfg.proxy.egresses.len(), 1);
    assert_eq!(cfg.proxy.egresses[0].id, "work");
    assert_eq!(cfg.proxy.egresses[0].name, "Work SOCKS");
    assert_eq!(cfg.proxy.egresses[0].kind, "socks5");
    assert_eq!(cfg.proxy.egresses[0].port, Some(1080));
    assert_eq!(cfg.proxy.rules.len(), 1);
    assert_eq!(cfg.proxy.rules[0].pattern, "*.google.com");
    assert_eq!(cfg.proxy.rules[0].egress, "work");
    assert!(cfg.proxy.rules[0].fail_closed);

    let again = cfg.normalized();
    assert_eq!(again.proxy.egresses.len(), 1);
    assert_eq!(again.proxy.rules.len(), 1);
}

#[test]
fn proxy_normalize_drops_dup_egress_ids_and_dangling_rules() {
    let mut cfg = config();
    cfg.proxy.enabled = true;
    cfg.proxy.egresses = vec![egress("a", "", "direct"), egress("A", "", "direct")];
    cfg.proxy.rules = vec![rule("example.com", "a"), rule("leak.com", "ghost")];
    let cfg = cfg.normalized();

    assert_eq!(cfg.proxy.egresses.len(), 1);
    assert_eq!(cfg.proxy.egresses[0].id, "a");
    assert_eq!(cfg.proxy.egresses[0].name, "a");
    assert_eq!(cfg.proxy.rules.len(), 1);
    assert_eq!(cfg.proxy.rules[0].pattern, "example.com");
}

#[test]
fn panel_config_normalizes_blank_domain_and_url() {
    let mut cfg = config();
    cfg.panel.domain = "  ".to_string();
    cfg.panel.url = Some("   ".to_string());
    let cfg = cfg.normalized();

    assert_eq!(cfg.panel.domain, "fe.te");
    assert!(cfg.panel.url.is_none());
}

#[test]
fn the_default_resolvers_are_named() {
    let cfg = config();
    assert!(cfg.upstream.iter().all(|u| match u {
        UpstreamConfig::Plain { address, .. } | UpstreamConfig::Tls { address, .. } | UpstreamConfig::Quic { address, .. } =>
            !address.is_empty(),
        UpstreamConfig::Https { url, .. } => url.starts_with("https://"),
    }));
}

#[test]
fn panel_record_uses_configured_ipv4_and_domain() {
    let mut cfg = config();
    cfg.panel.domain = "panel.home".to_string();
    cfg.panel.ipv4 = Some(v4(192, 168, 1, 5));

    let records = builtin_panel_records(&cfg, &None, &None, None);

    assert_eq!(records.len(), 1);
    assert_eq!(records[0].domain, "panel.home");
    assert_eq!(records[0].value, "192.168.1.5");
    assert_eq!(records[0].ttl, BUILTIN_PANEL_TTL);
    assert_eq!(records[0].record_type, "A");
}

#[test]
fn panel_record_can_be_disabled() {
    let mut cfg = config();
    cfg.panel.enabled = false;

    assert!(builtin_panel_records(&cfg, &None, &None, None).is_empty());
}

#[test]
fn panel_url_uses_configured_url() {
    let mut cfg = config();
    cfg.panel.url = Some("http://fe.te:8031".to_string());

    assert_eq!(panel_url(&cfg, "fe.te", &None), "http://fe.te:8031");
}

#[test]
fn panel_settings_from_the_environment_come_first() {
    let env = |s: &str| Some(s.to_string());
    let mut cfg = config();
    cfg.panel.ipv4 = Some(v4(192, 168, 1, 5));
    cfg.api.bind_addr = parse_socket_addr("0.0.0.0:80").unwrap();
    cfg.dns.bind_addr = parse_socket_addr("10.0.0.2:53").unwrap();
    assert_eq!(panel_ipv4(&cfg, &env(" 10.1.1.1 "), None), Some(v4(10, 1, 1, 1)));
    assert_eq!(panel_ipv4(&cfg, &env("junk"), None), Some(v4(192, 168, 1, 5)));
    assert_eq!(panel_ipv4(&cfg, &env("0.0.0.0"), None), Some(v4(10, 0, 0, 2)));
    cfg.panel.ipv4 = None;
    assert_eq!(panel_ipv4(&cfg, &None, Some(v4(9, 9, 9, 9))), Some(v4(10, 0, 0, 2)));
    cfg.dns.bind_addr = parse_socket_addr("127.0.0.1:53").unwrap();
    assert_eq!(panel_ipv4(&cfg, &None, Some(v4(9, 9, 9, 9))), Some(v4(9, 9, 9, 9)));
    assert_eq!(panel_ipv4(&cfg, &None, None), Some(v4(127, 0, 0, 1)));
    cfg.api.bind_addr = parse_socket_addr("[::1]:8080").unwrap();
    cfg.dns.bind_addr = parse_socket_addr("0.0.0.0:53").unwrap();
    assert_eq!(panel_ipv4(&cfg, &None, None), Some(v4(127, 0, 0, 1)));
    assert_eq!(panel_domain(&cfg, &env("p.home..")), "p.home");
    assert_eq!(panel_domain(&cfg, &env("  ")), "fe.te");
    assert_eq!(panel_url(&cfg, "p.home", &None), "http://p.home:8080");
    cfg.api.bind_addr = parse_socket_addr("127.0.0.1:80").unwrap();
    assert_eq!(panel_url(&cfg, "p.home", &None), "http://p.home");
    assert_eq!(panel_url(&cfg, "p.home", &env("http://x/")), "http://x/");
    assert!(unreachable_panel(&cfg, "192.168.1.5"));
    assert!(!unreachable_panel(&cfg, "127.0.0.1"));
    assert_eq!(trim_env(&None), None);
}

#[test]
fn stored_entries_are_taken_over_at_start() {
    let base = config();
    let mut blocklist = Blocklist::new(base.blocklist, base.allowlist);
    let rows = vec![
        ("Good.Test.".to_string(), "whitelist".to_string()),
        ("bad.test".to_string(), "blacklist".to_string()),
        ("*".to_string(), "blacklist".to_string()),
        ("x.test".to_string(), "greylist".to_string()),
    ];
    assert_eq!(load_custom_entries(&mut blocklist, &rows), vec![true, true, false, false]);
    assert!(blocklist.is_whitelisted("good.test"));
    assert!(blocklist.is_blocked("bad.test"));
    assert!(!blocklist.is_blocked("x.test"));
}

#[test]
fn counters_are_seeded_from_storage() {
    assert_eq!(allowed_count(100, 20, 30, 40), 10);
    assert_eq!(allowed_count(10, 20, 30, 40), 0);
    assert_eq!(highest_id(&vec![]), None);
    assert_eq!(retention_cutoff(1_000_000, 2), Some(1_000_000 - 172_800));
    assert_eq!(retention_cutoff(1_000_000, 0), None);
}

#[test]
fn the_password_command_sets_and_clears() {
    let mut cfg = config();
    set_password(&mut cfg, "secret").unwrap();
    assert!(verify_password("secret", cfg.api.password_hash.as_deref().unwrap()));
    set_password(&mut cfg, "").unwrap();
    assert!(cfg.api.password_hash.is_none());
}
