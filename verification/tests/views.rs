use ferrite::api::blocklist::{
    begin_add, begin_remove, check_domain, end_add, end_remove, evict_domain_cache, DomainPayload, RuleKind,
};
use ferrite::api::clients::{
    alias_key, client_limit, client_not_found, client_time_window, group_rows, list_clients, push_unique, rank_groups,
    read_alias, AliasKey, AliasPayload, ClientGroup, DeviceStat, ListClientsParams,
};
use ferrite::api::custom_records::{no_custom_record, normalise_record, prior_records};
use ferrite::api::error::{
    api_error_code, api_error_details, api_error_kind, api_error_status, config_error_code, update_error_code,
};
use ferrite::api::ingress::{parse_http_host, peeked, route, Peek, PeekStep, Prefixed, Route, PEEK_CAP};
use ferrite::api::lists::{find_list_info, list_lists, list_not_found, new_list, AddListPayload};
use ferrite::api::queries::{enrich, plan_queries, supplement, ListQueriesParams, QueryPlan};
use ferrite::api::stats::{get_summary, time_window, top_clients, TopStatsParams};
use ferrite::api::system::{collect_network, disk_used, memory_snapshot, shown_disk, InterfaceSample};
use ferrite::api::update::{web_update, UpdateCheckQuery, WebUpdate};
use ferrite::blocklist::engine::Blocklist;
use ferrite::clients::registry::ClientRegistry;
use ferrite::config::{Config, CustomRecordConfig};
use ferrite::dns::cache::DnsCache;
use ferrite::dns::types::{DnsResponse, QueryEntry, QueryStatus};
use ferrite::error::FeriteError;
use ferrite::ip::parse_ip_text;

fn strings(items: &[&str]) -> Vec<String> {
    items.iter().map(|s| s.to_string()).collect()
}

fn blocklist() -> Blocklist {
    let base = Config::with_data_dir("/data");
    Blocklist::new(base.blocklist, base.allowlist)
}

fn registry() -> ClientRegistry {
    ClientRegistry::new(
        &vec![("192.168.1.7".to_string(), "ip".to_string(), "printer".to_string())],
        &vec![],
        &vec![("192.168.1.5".to_string(), "a2:ce:c8:12:34:56".to_string())],
        0,
    )
}

#[test]
fn client_list_defaults_to_all_retained_history() {
    let params = ListClientsParams::default();

    let (_now, from) = client_time_window(&params, 1_700_000_000);

    assert_eq!(from, 0);
}

#[test]
fn client_list_can_request_a_rolling_window() {
    let params = ListClientsParams { hours: Some(24), ..Default::default() };

    let (now, from) = client_time_window(&params, 1_700_000_000);

    assert_eq!(now - from, 24 * 3600);
}

#[test]
fn client_windows_are_bounded() {
    let now = 1_700_000_000;
    let window = |hours: Option<u64>, all: Option<bool>| {
        client_time_window(&ListClientsParams { limit: None, hours, all_time: all }, now).1
    };
    assert_eq!(window(Some(0), None), 0);
    assert_eq!(window(Some(0), Some(false)), 0);
    assert_eq!(window(Some(1000), None), now - 168 * 3600);
    assert_eq!(window(Some(5), Some(false)), now - 5 * 3600);
    assert_eq!(window(None, None), 0);
    assert_eq!(window(None, Some(false)), 0);
    assert_eq!(window(Some(5), Some(true)), 0);
    assert_eq!(client_limit(&ListClientsParams::default()), 50);
    assert_eq!(client_limit(&ListClientsParams { limit: Some(900), ..Default::default() }), 500);
    assert_eq!(client_limit(&ListClientsParams { limit: Some(3), ..Default::default() }), 3);
}

#[test]
fn time_window_supports_explicit_all_time() {
    let params = TopStatsParams { all_time: Some(true), limit: Some(25), ..Default::default() };

    let (_now, from, limit) = time_window(&params, 1_700_000_000);

    assert_eq!(from, 0);
    assert_eq!(limit, 25);
}

#[test]
fn time_window_treats_zero_hours_as_all_time() {
    let params = TopStatsParams { hours: Some(0), ..Default::default() };

    let (_now, from, _limit) = time_window(&params, 1_700_000_000);

    assert_eq!(from, 0);
}

#[test]
fn statistics_look_back_a_day() {
    let (now, from, limit) = time_window(&TopStatsParams::default(), 1_700_000_000);
    assert_eq!((now, from, limit), (1_700_000_000, 1_700_000_000 - 86_400, 20));
    let many = TopStatsParams { limit: Some(1000), ..Default::default() };
    assert_eq!(time_window(&many, 1_700_000_000).2, 200);
}

fn row(name: &str, ips: &[&str], macs: &[&str], total: u64, blocked: u64, last_seen: i64) -> ClientGroup {
    ClientGroup {
        name: name.to_string(),
        ips: strings(ips),
        macs: strings(macs),
        total,
        blocked,
        last_seen,
        is_alias: false,
        blocking_bypassed: false,
    }
}

#[test]
fn devices_under_one_name_are_one_client() {
    let mut alias = row("tv", &["10.0.0.3"], &[], 5, 1, 90);
    alias.is_alias = true;
    let rows = vec![
        row("tv", &["10.0.0.1", "10.0.0.1"], &["m1"], 10, 2, 100),
        row("pc", &["10.0.0.2"], &[], 20, 0, 50),
        alias,
        row("tv", &["10.0.0.3"], &["m1"], 7, 0, -5),
    ];
    let groups = group_rows(&rows, true);
    assert_eq!(groups.len(), 2);
    assert_eq!(groups[0].name, "tv");
    assert_eq!(groups[0].ips, strings(&["10.0.0.1", "10.0.0.3"]));
    assert_eq!(groups[0].macs, strings(&["m1"]));
    assert_eq!((groups[0].total, groups[0].blocked, groups[0].last_seen), (22, 3, 100));
    assert!(groups[0].is_alias);
    assert_eq!(group_rows(&rows, false)[0].ips.len(), 4);

    let ranking = rank_groups(groups, 1);
    assert_eq!(ranking.len(), 1);
    assert_eq!(ranking[0].name, "tv");
}

#[test]
fn clients_are_ranked_by_their_totals() {
    let groups = vec![row("a", &[], &[], 1, 0, 0), row("b", &[], &[], 3, 0, 0), row("c", &[], &[], 3, 0, 0), row("d", &[], &[], 2, 0, 0)];
    let names: Vec<String> = rank_groups(groups, 10).into_iter().map(|g| g.name).collect();
    assert_eq!(names, strings(&["b", "c", "d", "a"]));
    let mut v = strings(&["x"]);
    push_unique(&mut v, "x".to_string());
    push_unique(&mut v, "y".to_string());
    assert_eq!(v, strings(&["x", "y"]));
}

#[test]
fn client_lists_join_statistics_names_and_rules() {
    let registry = registry();
    let mut blocklist = blocklist();
    blocklist.set_client_bypass(&strings(&["192.168.1.7"]));
    let stat = |device: &str, total: u64| DeviceStat { device: device.to_string(), total, blocked: 1, last_seen: 9 };
    let stats = vec![stat("192.168.1.20", 1), stat("192.168.1.7", 5), stat("a2:ce:c8:12:34:56", 3)];
    let clients = list_clients(&registry, &blocklist, &stats, 10);
    assert_eq!(clients.len(), 3);
    assert_eq!(clients[0].name, "printer");
    assert!(clients[0].is_alias && clients[0].blocking_bypassed);
    assert_eq!(clients[1].name, "a2:ce:c8:12:34:56");
    assert_eq!(clients[1].ips, strings(&["192.168.1.5"]));
    assert!(!clients[1].blocking_bypassed);
    assert_eq!(clients[2].ips, strings(&["192.168.1.20"]));
    assert_eq!(list_clients(&registry, &blocklist, &stats, 1).len(), 1);
}

#[test]
fn top_clients_are_named_and_looked_up() {
    let mut registry = registry();
    let counts = vec![
        ("192.168.1.5".to_string(), 4),
        ("192.168.1.7".to_string(), 3),
        ("::ffff:192.168.1.7".to_string(), 2),
    ];
    let (top, lookups) = top_clients(&mut registry, &counts, 10, 0);
    assert_eq!(top.len(), 2);
    assert_eq!((top[0].name.as_str(), top[0].total), ("printer", 5));
    assert_eq!(top[0].ips, strings(&["192.168.1.7", "::ffff:192.168.1.7"]));
    assert_eq!((top[1].name.as_str(), top[1].total), ("192.168.1.5", 4));
    assert_eq!(top[1].macs, strings(&["a2:ce:c8:12:34:56"]));
    assert_eq!(lookups, vec![parse_ip_text("192.168.1.5").unwrap()]);
}

#[test]
fn summaries_show_the_latest_queries() {
    let mut registry = registry();
    let counts = vec![("192.168.1.5".to_string(), 4), ("192.168.1.7".to_string(), 9)];
    let mut recent: Vec<QueryEntry> = (0..600).rev().map(|i| entry(i, "192.168.1.7")).collect();
    for i in [0, 30, 40, 599] {
        recent[i].status = QueryStatus::Blocked;
    }
    let (s, lookups) = get_summary(&mut registry, &counts, &recent, 0);
    assert_eq!(s.top_clients[0].name, "printer");
    assert_eq!(s.top_clients.len(), 2);
    let ids = |v: &[ferrite::api::queries::EnrichedEntry]| v.iter().map(|e| e.entry.id).collect::<Vec<u64>>();
    assert_eq!(ids(&s.recent_domains), (580..600).rev().collect::<Vec<u64>>());
    assert_eq!(ids(&s.recent_blocked), vec![599, 569, 559]);
    assert_eq!(s.recent_blocked[1].client_name.as_deref(), Some("printer"));
    assert_eq!(lookups, vec![parse_ip_text("192.168.1.5").unwrap()]);
}

#[test]
fn aliases_need_a_name_and_one_identity() {
    let ask = |ip: Option<&str>, mac: Option<&str>, name: &str| {
        read_alias(&AliasPayload {
            ip: ip.map(|s| s.to_string()),
            mac: mac.map(|s| s.to_string()),
            name: name.to_string(),
        })
    };
    let config = |r: Result<ferrite::api::clients::AliasRequest, FeriteError>| match r {
        Err(FeriteError::Config(m)) => m,
        other => panic!("unexpected {other:?}"),
    };
    let ok = ask(Some("10.0.0.1"), None, " tv ").unwrap();
    assert_eq!(ok.name, "tv");
    assert!(matches!(ok.key, AliasKey::Ip(_)));
    assert!(matches!(ask(None, Some("aa:bb:cc:dd:ee:ff"), "tv").unwrap().key, AliasKey::Mac(_)));
    assert_eq!(config(ask(Some("10.0.0.1"), None, "  ")), "name must not be empty");
    assert_eq!(config(ask(Some("x"), None, "tv")), "invalid IP: x");
    assert_eq!(config(ask(None, Some("y"), "tv")), "invalid MAC: y");
    assert_eq!(config(ask(None, None, "tv")), "provide exactly one of 'ip' or 'mac'");
    assert_eq!(config(ask(Some("10.0.0.1"), Some("y"), "tv")), "provide exactly one of 'ip' or 'mac'");
    assert!(matches!(alias_key("aa-bb-cc-dd-ee-ff"), Ok(AliasKey::Mac(_))));
    assert!(matches!(alias_key("10.0.0.1"), Ok(AliasKey::Ip(_))));
    match alias_key("not-a-client") {
        Err(FeriteError::Config(m)) => assert_eq!(m, "'not-a-client' is neither a valid IP nor a MAC address"),
        other => panic!("unexpected {other:?}"),
    }
    match client_not_found("x") {
        FeriteError::NotFound(m) => assert_eq!(m, "client 'x' not found"),
        other => panic!("unexpected {other:?}"),
    }
}

#[test]
fn classifies_known_config_errors() {
    assert_eq!(
        api_error_code(&FeriteError::Config(
            "api_key cannot be empty; use null to disable key auth".to_owned()
        )),
        "api_key_empty"
    );
    assert_eq!(
        api_error_code(&FeriteError::Config("provide exactly one of 'ip' or 'mac'".to_owned())),
        "client_identity_required"
    );
    assert_eq!(
        api_error_code(&FeriteError::Config(
            "'not-a-client' is neither a valid IP nor a MAC address".to_owned()
        )),
        "invalid_client_key"
    );
}

#[test]
fn classifies_incompatible_web_update() {
    assert_eq!(
        api_error_code(&FeriteError::Update(
            "web UI v0.2.0 requires server >=0.2.0 <0.3.0".to_owned()
        )),
        "web_update_incompatible"
    );
}

#[test]
fn errors_have_a_status_a_kind_and_details() {
    let config = FeriteError::Config("x".to_string());
    assert_eq!(api_error_status(&config), 400);
    assert_eq!(api_error_status(&FeriteError::NotFound("x".to_string())), 404);
    assert_eq!(api_error_status(&FeriteError::Unauthorized), 401);
    assert_eq!(api_error_status(&FeriteError::RateLimited), 429);
    assert_eq!(api_error_status(&FeriteError::Internal("x".to_string())), 500);
    assert_eq!(api_error_kind(&config), "config");
    assert_eq!(config_error_code("something else"), "config");
    assert_eq!(update_error_code("no network"), "update");
    assert_eq!(api_error_details(&config, "shown"), "x");
    assert_eq!(api_error_details(&FeriteError::Unauthorized, "shown"), "shown");
}

fn entry(id: u64, client_ip: &str) -> QueryEntry {
    QueryEntry {
        id,
        timestamp: id as i64,
        domain: format!("d{id}.test"),
        query_type: 1,
        client_ip: client_ip.to_string(),
        device: String::new(),
        status: QueryStatus::Upstream,
        latency_ms: 1,
        upstream: None,
        rcode: 0,
    }
}

#[test]
fn parameters_decide_where_queries_come_from() {
    match plan_queries(ListQueriesParams::default()) {
        QueryPlan::Recent { limit } => assert_eq!(limit, 100),
        other => panic!("unexpected {other:?}"),
    }
    let p = ListQueriesParams { after_id: Some(7), limit: Some(5000), status: Some("x".to_string()), ..Default::default() };
    match plan_queries(p) {
        QueryPlan::After { after_id, limit } => assert_eq!((after_id, limit), (7, 1000)),
        other => panic!("unexpected {other:?}"),
    }
    let p = ListQueriesParams { client_ip: Some(" 10.0.0.1, ,10.0.0.2 ,".to_string()), offset: Some(2), ..Default::default() };
    match plan_queries(p) {
        QueryPlan::Stored(f) => {
            assert_eq!(f.client_ips, strings(&["10.0.0.1", "10.0.0.2"]));
            assert_eq!(f.limit, Some(100));
            assert_eq!(f.offset, Some(2));
        }
        other => panic!("unexpected {other:?}"),
    }
    let p = ListQueriesParams { offset: Some(0), ..Default::default() };
    assert!(matches!(plan_queries(p), QueryPlan::Recent { .. }));
}

#[test]
fn stored_queries_fill_up_the_recent_ones() {
    let ids = |v: Vec<QueryEntry>| v.into_iter().map(|e| e.id).collect::<Vec<u64>>();
    let recent = || vec![entry(9, "a"), entry(8, "a")];
    let stored = vec![entry(9, "a"), entry(7, "a"), entry(8, "a"), entry(6, "a"), entry(5, "a")];
    assert_eq!(ids(supplement(recent(), &stored, 4)), vec![9, 8, 7, 6]);
    assert_eq!(ids(supplement(recent(), &stored, 100)), vec![9, 8, 7, 6, 5]);
    assert_eq!(ids(supplement(recent(), &stored, 2)), vec![9, 8]);
    assert_eq!(ids(supplement(vec![], &stored, 1)), vec![9]);
}

#[test]
fn queries_are_shown_with_the_names_of_clients() {
    let mut registry = registry();
    let entries = vec![entry(1, "192.168.1.7"), entry(2, "192.168.1.5"), entry(3, "junk")];
    let (shown, lookups) = enrich(&mut registry, &entries, 0);
    assert_eq!(shown[0].client_name.as_deref(), Some("printer"));
    assert_eq!(shown[1].client_name, None);
    assert_eq!(shown[2].client_name, None);
    assert_eq!(shown[2].entry.id, 3);
    assert_eq!(lookups, vec![parse_ip_text("192.168.1.5").unwrap()]);
}

fn payload(domain: &str) -> DomainPayload {
    DomainPayload { domain: domain.to_string() }
}

#[test]
fn whitelist_add_normalizes_so_delete_clears_storage() {
    let mut blocklist = blocklist();
    let mut cache = DnsCache::new(8, 60, 300);
    let mut storage: Vec<(String, String)> = vec![];

    let domain = begin_add(&mut blocklist, RuleKind::Whitelist, &payload("Ads.Example.Com.")).unwrap();
    storage.push((domain.clone(), RuleKind::Whitelist.as_str().to_string()));
    let done = end_add(&mut blocklist, &mut cache, RuleKind::Whitelist, domain, true).unwrap();
    assert_eq!(done.status, "whitelisted");

    assert!(blocklist.is_whitelisted("ads.example.com"));
    assert_eq!(storage, vec![("ads.example.com".to_string(), "whitelist".to_string())]);

    let domain = begin_remove(&mut blocklist, RuleKind::Whitelist, "ads.example.com");
    storage.retain(|(d, _)| *d != domain);
    assert!(end_remove(&mut blocklist, &mut cache, RuleKind::Whitelist, &domain, true));
    assert!(storage.is_empty());
    assert!(!blocklist.is_whitelisted("ads.example.com"));
}

#[test]
fn rules_that_cannot_be_stored_are_taken_back() {
    let mut blocklist = blocklist();
    let mut cache = DnsCache::new(8, 60, 300);
    let d = begin_add(&mut blocklist, RuleKind::Blacklist, &payload("evil.test")).unwrap();
    assert!(blocklist.is_blocked("evil.test"));
    assert!(end_add(&mut blocklist, &mut cache, RuleKind::Blacklist, d, false).is_none());
    assert!(!blocklist.is_blocked("evil.test"));

    blocklist.add_blacklist("bad.test").unwrap();
    let d = begin_remove(&mut blocklist, RuleKind::Blacklist, "bad.test");
    assert!(!blocklist.is_blocked("bad.test"));
    assert!(!end_remove(&mut blocklist, &mut cache, RuleKind::Blacklist, &d, false));
    assert!(blocklist.is_blocked("bad.test"));
    assert!(begin_add(&mut blocklist, RuleKind::Blacklist, &payload("*")).is_err());
}

#[test]
fn changed_rules_drop_cached_responses() {
    let mut cache = DnsCache::new(8, 60, 300);
    let response = || DnsResponse { bytes: vec![1], ttl: 100 };
    cache.insert("a.test", 1, response());
    cache.insert("b.test", 1, response());
    evict_domain_cache(&mut cache, "a.test");
    assert_eq!(cache.len(), 1);
    evict_domain_cache(&mut cache, "*.zzz");
    assert_eq!(cache.len(), 0);
}

#[test]
fn exempt_domains_are_never_reported_as_blocked() {
    let mut blocklist = blocklist();
    blocklist.add_blacklist("evil.test").unwrap();
    let c = check_domain(&mut blocklist, "Evil.Test.");
    assert!(c.blocked && !c.whitelisted);
    assert_eq!(c.domain, "evil.test");
    blocklist.add_whitelist("evil.test").unwrap();
    let c = check_domain(&mut blocklist, "sub.evil.test");
    assert!(!c.blocked && c.whitelisted);
}

fn record(domain: &str, value: &str) -> CustomRecordConfig {
    CustomRecordConfig { domain: domain.to_string(), record_type: "A".to_string(), value: value.to_string(), ttl: 60 }
}

#[test]
fn custom_record_add_normalizes_so_delete_clears_storage() {
    let r = normalise_record(record("Router.LAN.", "192.168.1.1"));
    assert_eq!(r.domain, "router.lan");
    assert_eq!(r.value, "192.168.1.1");
    let mut stored = vec![r, record("nas.lan", "192.168.1.2")];
    assert_eq!(prior_records(&stored, "router.lan").len(), 1);
    stored.retain(|r| r.domain != "router.lan");
    assert!(prior_records(&stored, "router.lan").is_empty());
    match no_custom_record("router.lan") {
        FeriteError::NotFound(m) => assert_eq!(m, "no custom record for 'router.lan'"),
        other => panic!("unexpected {other:?}"),
    }
}

#[test]
fn lists_are_shown_with_their_counts() {
    let mut blocklist = blocklist();
    let before = list_lists(&blocklist).len();
    let cfg = new_list(AddListPayload { url: "https://l.test".to_string(), name: "L".to_string(), enabled: None });
    assert!(cfg.enabled);
    blocklist.add_list(cfg).unwrap();
    assert_eq!(list_lists(&blocklist).len(), before + 1);
    let info = find_list_info(&blocklist, "L").unwrap();
    assert_eq!(info.url, "https://l.test");
    assert!(info.enabled && info.domains_loaded.is_none() && info.parse_stats.is_none());
    assert!(find_list_info(&blocklist, "M").is_none());
    let off = new_list(AddListPayload { url: "u".to_string(), name: "n".to_string(), enabled: Some(false) });
    assert!(!off.enabled);
    match list_not_found("M") {
        FeriteError::NotFound(m) => assert_eq!(m, "list 'M' not found"),
        other => panic!("unexpected {other:?}"),
    }
}

#[test]
fn hosts_decide_who_serves_a_connection() {
    let panel = strings(&["fe.te", "192.168.1.1"]);
    let host = |h: &str| Some(h.to_string());
    assert_eq!(route(&host("video.test"), true, &panel), Route::Proxy);
    assert_eq!(route(&host("video.test"), false, &panel), Route::Panel);
    assert_eq!(route(&host("fe.te"), true, &panel), Route::Panel);
    assert_eq!(route(&None, true, &panel), Route::Panel);

    assert!(matches!(peeked(Peek::Incomplete, PEEK_CAP), PeekStep::ReadOn));
    assert!(matches!(peeked(Peek::Incomplete, PEEK_CAP + 1), PeekStep::Dispatch(None)));
    assert!(matches!(peeked(Peek::Failed, 0), PeekStep::Drop));
    assert!(matches!(peeked(Peek::TimedOut, 0), PeekStep::Dispatch(None)));
    assert!(matches!(peeked(Peek::Closed, 0), PeekStep::Dispatch(None)));
    assert!(matches!(peeked(Peek::NotFound, 0), PeekStep::Dispatch(None)));
    assert!(matches!(peeked(Peek::Found("h".to_string()), 0), PeekStep::Dispatch(Some(_))));
}

#[test]
fn requests_name_the_host_that_they_ask_for() {
    let found = |text: &str| match parse_http_host(text) {
        Peek::Found(h) => h,
        other => panic!("unexpected {other:?}"),
    };
    assert_eq!(found("GET / HTTP/1.1\r\nHost: Fe.Te:8080\r\n\r\n"), "fe.te");
    assert_eq!(found("GET / HTTP/1.1\r\nAccept: */*\r\nhOST:video.test\r\n\r\nbody"), "video.test");
    assert_eq!(found("GET / HTTP/1.1\r\nHost: [2001:db8::1]:80\r\n\r\n"), "2001:db8::1");
    assert!(matches!(parse_http_host("GET / HTTP/1.1\r\nHost: fe.te\r\n"), Peek::Incomplete));
    assert!(matches!(parse_http_host("GET / HTTP/1.1\r\nHost: fe.te\r\n\r"), Peek::Incomplete));
    assert!(matches!(parse_http_host(""), Peek::Incomplete));
    assert!(matches!(parse_http_host("GET / HTTP/1.1\r\n\r\nHost: fe.te\r\n"), Peek::NotFound));
    assert!(matches!(parse_http_host("GET / HTTP/1.1\r\nHost:\r\nX: 1\r\n\r\n"), Peek::NotFound));
}

#[test]
fn peeked_bytes_are_read_again() {
    let mut p = Prefixed::new(vec![1, 2, 3, 4, 5]);
    assert_eq!(p.read(2), Some(vec![1, 2]));
    assert_eq!(p.read(0), Some(vec![]));
    assert_eq!(p.read(100), Some(vec![3, 4, 5]));
    assert_eq!(p.read(100), None);
}

#[test]
fn updates_that_do_not_fit_are_refused() {
    assert!(!UpdateCheckQuery::default().force);
    assert!(matches!(web_update(true, Some("x".to_string())), WebUpdate::Install));
    assert!(matches!(web_update(false, None), WebUpdate::UpToDate));
    match web_update(false, Some("why".to_string())) {
        WebUpdate::Refused(FeriteError::Update(m)) => assert_eq!(m, "why"),
        other => panic!("unexpected {other:?}"),
    }
}

#[test]
fn memory_snapshot_uses_available_memory_for_pressure() {
    let memory = memory_snapshot(3_905, 3_264, 2_795);

    assert_eq!(memory.used, 641);
    assert_eq!(memory.allocated, 1_110);
    assert_eq!(memory.reclaimable, 469);
    assert_eq!(disk_used(100, 30), 70);
    assert_eq!(disk_used(30, 100), 0);
}

#[test]
fn interfaces_that_are_up_count() {
    let sample = |name: &str, state: &str, n: u64, speed: Option<&str>| InterfaceSample {
        name: name.to_string(),
        operstate: state.to_string(),
        received: n,
        transmitted: 2 * n,
        speed: speed.map(|s| s.to_string()),
    };
    let t = collect_network(&vec![
        sample("lo", "unknown\n", 1000, Some("10")),
        sample("eth1", "down\n", 500, Some("100")),
        sample("wlan0", "up\n", 7, Some("-1\n")),
        sample("eth0", "up\n", 5, Some("1000\n")),
        sample("tun0", "", 1, Some("10")),
    ]);
    assert_eq!((t.rx_bytes, t.tx_bytes), (13, 26));
    assert_eq!(t.link_speed_mbps, Some(1000));
    assert_eq!(t.interfaces, strings(&["wlan0", "eth0", "tun0"]));
    assert_eq!(shown_disk(&strings(&["/boot", "/", "/"])), Some(1));
    assert_eq!(shown_disk(&strings(&["/boot", "/home"])), Some(0));
    assert_eq!(shown_disk(&vec![]), None);
}
