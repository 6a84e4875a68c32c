use ferrite::blocklist::engine::{Blocklist, KeptLists};
use ferrite::blocklist::loader::{map_of_domains, parse_content_for};
use ferrite::blocklist::parser::AdblockStats;
use ferrite::blocklist::refresh::{
    after_fetch, build_list, failed_list, plan_list, refresh_list_set, sanitize_name, ListCaches, ListPolarity, ListResult,
    ListSetRefresh, ListStep,
};
use ferrite::blocklist::store::ListStore;
use ferrite::blocklist::suffix::{has_suffix, is_registrable_or_deeper, normalise_domain};
use ferrite::blocklist::wildcard::Wildcard;
use ferrite::config::{AllowlistConfig, BlocklistConfig, BlocklistProfileConfig, ListConfig};
use ferrite::error::{FeriteError, Result};

fn strings(items: &[&str]) -> Vec<String> {
    items.iter().map(|s| s.to_string()).collect()
}

fn config(cache: usize) -> BlocklistConfig {
    BlocklistConfig {
        enabled: true,
        decision_cache_size: cache,
        lists: vec![],
        wildcard_block: vec![],
        whitelist: vec![],
        client_bypass: vec![],
        profiles: vec![],
    }
}

fn no_allow() -> AllowlistConfig {
    AllowlistConfig { domains: vec![], lists: vec![] }
}

fn list(name: &str, url: &str) -> ListConfig {
    ListConfig { name: name.to_string(), url: url.to_string(), enabled: true }
}

fn profile(id: &str, lists: &[&str], clients: &[&str]) -> BlocklistProfileConfig {
    BlocklistProfileConfig {
        id: id.to_string(),
        name: id.to_string(),
        lists: strings(lists),
        clients: strings(clients),
        block: vec![],
        allow: vec![],
        allowlists: vec![],
        default_deny: false,
    }
}

fn store(files: &[(&str, &[&str])]) -> ListStore {
    let mut s = ListStore::new();
    for (name, domains) in files {
        s.push(sanitize_name(name), map_of_domains(strings(domains)).unwrap());
    }
    s
}

fn kept(merged: &[&str], files: &[(&str, &[&str])]) -> KeptLists {
    KeptLists {
        merged: Some(map_of_domains(strings(merged)).unwrap()),
        files: store(files),
        stats: vec![],
    }
}

fn nothing_kept() -> KeptLists {
    KeptLists { merged: None, files: ListStore::new(), stats: vec![] }
}

fn no_caches() -> ListCaches {
    ListCaches { map: None, map_age: 0, domains: None, domains_age: 0, stats: None }
}

fn fetched(name: &str, content: &str, polarity: ListPolarity) -> ListResult {
    match plan_list(name.to_string(), no_caches(), false) {
        ListStep::Fetch(caches) => {
            let (domains, stats) = after_fetch(Some(parse_content_for(content, polarity)), &caches);
            build_list(name.to_string(), domains, stats, caches.map, caches.stats)
        }
        _ => panic!("nothing is kept"),
    }
}

fn refreshed(lists: &[(&str, &str)], polarity: ListPolarity) -> Result<ListSetRefresh> {
    let results = lists.iter().map(|(n, c)| fetched(n, c, polarity)).collect();
    refresh_list_set(results, polarity)
}

#[test]
fn refresh_preserves_wildcard_block_rules() {
    let mut cfg = config(50_000);
    cfg.wildcard_block = strings(&["*.ads.test"]);
    let mut blocklist = Blocklist::new(cfg, no_allow());

    assert!(blocklist.is_blocked("tracker.ads.test"));
    let n = blocklist
        .refresh(refreshed(&[], ListPolarity::Block), None, &ListStore::new(), &ListStore::new())
        .unwrap();
    assert_eq!(n, 0);
    assert!(blocklist.is_blocked("tracker.ads.test"));
}

#[test]
fn load_from_disk_restores_per_list_counts_and_stats_from_cache() {
    let mut cfg = config(1000);
    cfg.lists = vec![list("My List", "https://example.test/list.txt")];
    let mut blocklist = Blocklist::new(cfg, no_allow());

    let stats = AdblockStats {
        kept: 2,
        exceptions: 1,
        unblocked_by_exception: 0,
        scoped_skipped: 0,
        cosmetic_skipped: 0,
        unsupported_skipped: 0,
    };
    let domains: &[&str] = &["a.ads.test", "b.ads.test"];
    let mut block = kept(domains, &[("My List", domains)]);
    block.stats = vec![(sanitize_name("My List"), stats)];

    assert!(blocklist.load_from_disk(block, nothing_kept()));
    assert_eq!(blocklist.domain_count("My List"), Some(2));
    let restored = blocklist.parse_stats("My List").expect("stats restored");
    assert_eq!(restored.kept, 2);
    assert_eq!(restored.exceptions, 1);
}

#[test]
fn per_device_profile_applies_a_list_subset_to_matched_clients() {
    let files: &[(&str, &[&str])] = &[("Ads", &["ads.test"]), ("Adult", &["adult.test"])];
    let mut cfg = config(1000);
    cfg.lists = vec![list("Ads", "https://x.test/ads"), list("Adult", "https://x.test/adult")];
    cfg.profiles = vec![profile("kids", &["Ads", "Adult"], &["10.0.0.5"])];
    let mut blocklist = Blocklist::new(cfg, no_allow());
    assert!(blocklist.load_from_disk(kept(&["ads.test", "adult.test"], files), nothing_kept()));

    let kids = blocklist.profile_for("10.0.0.5", None);
    assert!(kids.is_some(), "profile must match its listed client");
    assert!(blocklist.is_blocked_for_normalized("ads.test", kids));
    assert!(blocklist.is_blocked_for_normalized("adult.test", kids));

    assert!(blocklist.profile_for("10.0.0.9", None).is_none());

    blocklist.set_profiles(
        vec![profile("lite", &["Ads"], &["aa:bb:cc:dd:ee:ff"])],
        &store(files),
        &ListStore::new(),
    );
    let lite = blocklist.profile_for("10.0.0.9", Some("aa:bb:cc:dd:ee:ff"));
    assert!(lite.is_some(), "profile must match by MAC");
    assert!(blocklist.is_blocked_for_normalized("ads.test", lite));
    assert!(
        !blocklist.is_blocked_for_normalized("adult.test", lite),
        "a list the profile excludes must not block"
    );
    assert!(blocklist.is_blocked_for_normalized("track.ads.test", lite));
}

#[test]
fn per_profile_manual_rules_override_global() {
    let mut cfg = config(1000);
    cfg.lists = vec![list("Ads", "https://x.test/ads")];
    cfg.whitelist = strings(&["news.example"]);
    let mut me = profile("me", &["Ads"], &["10.0.0.1"]);
    me.allow = strings(&["social.example"]);
    let mut kids = profile("kids", &["Ads"], &["10.0.0.2"]);
    kids.block = strings(&["news.example", "*.games.example"]);
    cfg.profiles = vec![me, kids];
    let mut blocklist = Blocklist::new(cfg, no_allow());
    assert!(blocklist.load_from_disk(
        kept(&["social.example"], &[("Ads", &["social.example"])]),
        nothing_kept()
    ));

    let me = blocklist.profile_for("10.0.0.1", None);
    let kids = blocklist.profile_for("10.0.0.2", None);
    assert!(me.is_some() && kids.is_some());

    assert!(!blocklist.should_block_for("social.example", me));
    assert!(!blocklist.should_block_for("cdn.social.example", me));

    assert!(blocklist.should_block_for("news.example", kids));
    assert!(blocklist.should_block_for("play.games.example", kids));
    assert!(blocklist.should_block_for("social.example", kids));

    assert!(blocklist.should_block_for("social.example", None));
    assert!(!blocklist.should_block_for("news.example", None));
    assert!(!blocklist.should_block_for("play.games.example", None));
}

#[test]
fn refresh_keeps_existing_fst_when_enabled_lists_all_fail() {
    let mut cfg = config(50_000);
    cfg.lists = vec![list("Missing", "file:///this/path/does/not/exist")];
    let mut blocklist = Blocklist::new(cfg, no_allow());

    assert!(blocklist.load_from_disk(kept(&["blocked.test"], &[]), nothing_kept()));
    assert!(blocklist.is_blocked("blocked.test"));

    let caches = match plan_list("Missing".to_string(), no_caches(), false) {
        ListStep::Fetch(c) => c,
        _ => panic!("nothing is kept"),
    };
    let (domains, stats) = after_fetch(None, &caches);
    let result = build_list("Missing".to_string(), domains, stats, caches.map, caches.stats);
    let set = refresh_list_set(vec![result], ListPolarity::Block);
    let err = blocklist.refresh(set, None, &ListStore::new(), &ListStore::new()).unwrap_err();
    match err {
        FeriteError::Fst(m) => {
            assert!(m.contains("all enabled blocklists failed and no cached domains are available"))
        }
        other => panic!("unexpected {other:?}"),
    }
    assert!(blocklist.is_blocked("blocked.test"));
    assert_eq!(blocklist.blocked_count(), 1);
}

#[test]
fn config_entries_are_normalized_once_for_hot_path_lookups() {
    let mut cfg = config(128);
    cfg.wildcard_block = strings(&["*.Ads.Test."]);
    cfg.whitelist = strings(&["Safe.Test.", "*.Trusted.Test."]);
    let mut blocklist = Blocklist::new(cfg, no_allow());

    assert!(blocklist.is_whitelisted("SAFE.TEST."));
    assert!(blocklist.is_whitelisted_normalized("app.trusted.test"));
    assert!(blocklist.is_blocked("Tracker.Ads.Test."));
    assert!(blocklist.is_blocked_normalized("tracker.ads.test"));
}

#[test]
fn explain_attributes_sources_and_whitelist() {
    let mut cfg = config(128);
    cfg.wildcard_block = strings(&["*.ads.test"]);
    cfg.whitelist = strings(&["safe.test"]);
    let mut blocklist = Blocklist::new(cfg, no_allow());
    blocklist.add_blacklist("evil.test").unwrap();
    let none = ListStore::new();

    let e = blocklist.explain("www.evil.test", &none, &none);
    assert!(e.blocked);
    assert!(!e.whitelisted);
    assert!(e.sources.iter().any(|s| s.kind == "blacklist" && s.matched == "evil.test"));

    let w = blocklist.explain("x.ads.test", &none, &none);
    assert!(w.blocked);
    assert!(w.sources.iter().any(|s| s.kind == "wildcard"));

    let s = blocklist.explain("safe.test", &none, &none);
    assert!(!s.blocked);
    assert!(s.whitelisted);
    assert_eq!(s.whitelist_match.as_ref().unwrap().entry, "safe.test");

    blocklist.add_whitelist("evil.test").unwrap();
    let ww = blocklist.explain("evil.test", &none, &none);
    assert!(ww.whitelisted);
    assert!(!ww.blocked);
    assert!(!ww.sources.is_empty());
}

#[test]
fn whitelisting_parent_domain_exempts_subdomains() {
    let mut cfg = config(128);
    cfg.whitelist = strings(&["google.com"]);
    let blocklist = Blocklist::new(cfg, no_allow());

    assert!(blocklist.is_whitelisted_normalized("google.com"));
    assert!(blocklist.is_whitelisted_normalized("www.google.com"));
    assert!(blocklist.is_whitelisted_normalized("adservice.google.com"));
    assert!(!blocklist.is_whitelisted_normalized("notgoogle.com"));
    assert!(!blocklist.is_whitelisted_normalized("google.com.evil.com"));
}

#[test]
fn blacklisting_parent_domain_blocks_subdomains() {
    let mut blocklist = Blocklist::new(config(128), no_allow());

    blocklist.add_blacklist("evil.com").unwrap();
    assert!(blocklist.is_blocked_normalized("evil.com"));
    assert!(blocklist.is_blocked_normalized("www.evil.com"));
    assert!(blocklist.is_blocked_normalized("ads.tracking.evil.com"));
    assert!(!blocklist.is_blocked_normalized("notevil.com"));
    assert!(!blocklist.is_blocked_normalized("evil.com.good.org"));
}

#[test]
fn blacklisting_parent_clears_stale_allow_for_subdomain() {
    let mut blocklist = Blocklist::new(config(128), no_allow());

    assert!(!blocklist.is_blocked_normalized("www.ads.test"));
    assert_eq!(blocklist.decision_cache_entries(), 1);
    blocklist.add_blacklist("ads.test").unwrap();
    assert!(blocklist.is_blocked_normalized("www.ads.test"));
}

#[test]
fn invalidating_forgets_one_decision() {
    let mut blocklist = Blocklist::new(config(128), no_allow());

    assert!(!blocklist.is_blocked_normalized("one.test"));
    assert!(!blocklist.is_blocked_normalized("two.test"));
    assert_eq!(blocklist.decision_cache_entries(), 2);
    blocklist.invalidate("three.test");
    assert_eq!(blocklist.decision_cache_entries(), 2);
    blocklist.invalidate("one.test");
    assert_eq!(blocklist.decision_cache_entries(), 1);
    blocklist.invalidate("one.test");
    assert_eq!(blocklist.decision_cache_entries(), 1);
    assert!(!blocklist.is_blocked_normalized("two.test"));
    assert_eq!(blocklist.decision_cache_entries(), 1);
}

#[test]
fn public_suffix_entry_does_not_overmatch_ccsld() {
    let mut blocklist = Blocklist::new(config(128), no_allow());

    blocklist.add_blacklist("co.uk").unwrap();
    assert!(!blocklist.is_blocked_normalized("victim.co.uk"));
    assert!(!blocklist.is_blocked_normalized("www.bbc.co.uk"));
    blocklist.add_blacklist("bad.co.uk").unwrap();
    assert!(blocklist.is_blocked_normalized("bad.co.uk"));
    assert!(blocklist.is_blocked_normalized("tracker.bad.co.uk"));
}

#[test]
fn subscribed_allowlist_exempts_blocked_domains() {
    let mut cfg = config(1000);
    cfg.lists = vec![list("Block", "file:///block.txt")];
    let allow = AllowlistConfig { domains: vec![], lists: vec![list("Allow", "file:///allow.txt")] };
    let mut blocklist = Blocklist::new(cfg, allow);
    let block_files = store(&[("Block", &["cdn.example", "tracker.example"])]);
    let allow_files = store(&[("Allow", &["cdn.example"])]);
    blocklist
        .refresh(
            refreshed(&[("Block", "cdn.example\ntracker.example\n")], ListPolarity::Block),
            Some(refreshed(&[("Allow", "cdn.example\n")], ListPolarity::Allow)),
            &block_files,
            &allow_files,
        )
        .unwrap();

    assert!(blocklist.should_block_for("tracker.example", None));
    assert!(!blocklist.should_block_for("cdn.example", None));
    assert!(!blocklist.should_block_for("static.cdn.example", None));
    assert!(blocklist.is_whitelisted_normalized("cdn.example"));
    assert_eq!(blocklist.allow_domain_count("Allow"), Some(1));

    let e = blocklist.explain("cdn.example", &block_files, &allow_files);
    assert!(e.whitelisted && !e.blocked);
    assert_eq!(e.whitelist_match.as_ref().unwrap().list.as_deref(), Some("Allow"));
    assert!(!e.sources.is_empty());

    assert!(blocklist.remove_allow_list("Allow"));
    blocklist
        .refresh(
            refreshed(&[("Block", "cdn.example\ntracker.example\n")], ListPolarity::Block),
            Some(refreshed(&[], ListPolarity::Allow)),
            &block_files,
            &allow_files,
        )
        .unwrap();
    assert!(blocklist.should_block_for("cdn.example", None));
}

#[test]
fn profile_block_overrides_subscribed_allowlist() {
    let mut cfg = config(1000);
    let mut kids = profile("kids", &[], &["10.0.0.2"]);
    kids.block = strings(&["social.example"]);
    cfg.profiles = vec![kids];
    let allow = AllowlistConfig { domains: vec![], lists: vec![list("Allow", "file:///allow.txt")] };
    let mut blocklist = Blocklist::new(cfg, allow);
    blocklist
        .refresh(
            refreshed(&[], ListPolarity::Block),
            Some(refreshed(&[("Allow", "social.example\n")], ListPolarity::Allow)),
            &ListStore::new(),
            &store(&[("Allow", &["social.example"])]),
        )
        .unwrap();

    assert!(!blocklist.should_block_for("social.example", None));
    assert!(blocklist.is_whitelisted_normalized("social.example"));
    let kids = blocklist.profile_for("10.0.0.2", None);
    assert!(kids.is_some());
    assert!(blocklist.should_block_for("social.example", kids));
}

#[test]
fn load_from_disk_restores_allowlist_fst_and_counts() {
    let allow = AllowlistConfig { domains: vec![], lists: vec![list("Allow", "https://x.test/allow")] };
    let mut blocklist = Blocklist::new(config(1000), allow);
    assert!(blocklist.load_from_disk(
        kept(&["cdn.example"], &[]),
        kept(&["cdn.example"], &[("Allow", &["cdn.example"])])
    ));
    assert!(blocklist.is_whitelisted_normalized("cdn.example"));
    assert!(!blocklist.should_block_for("cdn.example", None));
    assert_eq!(blocklist.allow_domain_count("Allow"), Some(1));
}

#[test]
fn load_from_disk_misses_when_allowlists_configured_but_not_cached() {
    let allow = AllowlistConfig { domains: vec![], lists: vec![list("Allow", "https://x.test/allow")] };
    let mut blocklist = Blocklist::new(config(1000), allow);
    assert!(!blocklist.load_from_disk(kept(&["ads.example"], &[]), nothing_kept()));
}

#[test]
fn allow_list_crud_mirrors_blocklist_semantics() {
    let mut blocklist = Blocklist::new(config(128), no_allow());

    let cfg = list("Allow", "https://x.test/allow");
    blocklist.add_allow_list(cfg.clone()).unwrap();
    assert!(blocklist.add_allow_list(cfg).is_err(), "duplicate name must be rejected");
    assert!(blocklist.set_allow_list_enabled("Allow", false));
    assert!(!blocklist.get_allow_lists()[0].enabled);
    assert!(!blocklist.set_allow_list_enabled("Ghost", false));
    assert!(blocklist.remove_allow_list("Allow"));
    assert!(!blocklist.remove_allow_list("Allow"));
    assert!(blocklist.get_allow_lists().is_empty());
}

#[test]
fn default_deny_blocks_everything_except_allow_tiers() {
    let mut cfg = config(1000);
    let mut kid = profile("kid", &[], &["10.0.0.2"]);
    kid.allow = strings(&["app.example"]);
    kid.default_deny = true;
    cfg.profiles = vec![kid];
    let allow = AllowlistConfig {
        domains: strings(&["manual.example"]),
        lists: vec![list("Feed", "file:///feed.txt")],
    };
    let mut blocklist = Blocklist::new(cfg, allow);
    blocklist
        .refresh(
            refreshed(&[], ListPolarity::Block),
            Some(refreshed(&[("Feed", "feed.example\n")], ListPolarity::Allow)),
            &ListStore::new(),
            &store(&[("Feed", &["feed.example"])]),
        )
        .unwrap();

    let kid = blocklist.profile_for("10.0.0.2", None);
    assert!(kid.is_some());

    assert!(blocklist.should_block_for("random.example", kid));
    assert!(blocklist.should_block_for("www.google.com", kid));
    assert!(!blocklist.should_block_for("app.example", kid));
    assert!(!blocklist.should_block_for("sub.app.example", kid));
    assert!(!blocklist.should_block_for("manual.example", kid));
    assert!(!blocklist.should_block_for("www.manual.example", kid));
    assert!(!blocklist.should_block_for("feed.example", kid));
    assert!(!blocklist.should_block_for("cdn.feed.example", kid));

    assert!(!blocklist.should_block_for("random.example", None));
}

#[test]
fn default_deny_exempts_local_infra_but_not_from_blacklist() {
    let mut cfg = config(1000);
    let mut kiosk = profile("kiosk", &[], &["10.0.0.3"]);
    kiosk.default_deny = true;
    cfg.profiles = vec![kiosk];
    let mut blocklist = Blocklist::new(cfg, no_allow());
    blocklist.rebuild_profiles(&ListStore::new(), &ListStore::new());
    blocklist.set_local_zones(&strings(&["corp.example"]));

    let kiosk = blocklist.profile_for("10.0.0.3", None);
    assert!(kiosk.is_some());

    assert!(!blocklist.should_block_for("1.1.168.192.in-addr.arpa", kiosk));
    assert!(!blocklist.should_block_for("nas", kiosk));
    assert!(!blocklist.should_block_for("printer.lan", kiosk));
    assert!(!blocklist.should_block_for("tv.local", kiosk));
    assert!(!blocklist.should_block_for("host.localdomain", kiosk));
    assert!(!blocklist.should_block_for("router.home", kiosk));
    assert!(!blocklist.should_block_for("api.corp.example", kiosk));
    assert!(blocklist.should_block_for("example.com", kiosk));

    blocklist.add_blacklist("bad.lan").unwrap();
    assert!(blocklist.should_block_for("bad.lan", kiosk));
}

#[test]
fn has_suffix_respects_label_boundaries() {
    assert!(has_suffix("printer.lan", "lan"));
    assert!(has_suffix("lan", "lan"));
    assert!(has_suffix("a.b.corp.example", "corp.example"));
    assert!(!has_suffix("mylan.com", "lan"));
    assert!(!has_suffix("foolan", "lan"));
    assert!(!has_suffix("lan.example.com", "lan"));
}

#[test]
fn profile_allowlist_subset_overrides_the_global_allow_set() {
    let mut cfg = config(1000);
    let mut kid = profile("kid", &[], &["10.0.0.2"]);
    kid.allowlists = strings(&["KidSafe"]);
    kid.default_deny = true;
    cfg.profiles = vec![kid];
    let allow = AllowlistConfig {
        domains: vec![],
        lists: vec![list("KidSafe", "file:///kidsafe.txt"), list("General", "file:///general.txt")],
    };
    let mut blocklist = Blocklist::new(cfg, allow);
    blocklist
        .refresh(
            refreshed(&[], ListPolarity::Block),
            Some(refreshed(
                &[("KidSafe", "kid.example\n"), ("General", "gen.example\n")],
                ListPolarity::Allow,
            )),
            &ListStore::new(),
            &store(&[("KidSafe", &["kid.example"]), ("General", &["gen.example"])]),
        )
        .unwrap();

    let kid = blocklist.profile_for("10.0.0.2", None);
    assert!(kid.is_some());

    assert!(!blocklist.should_block_for("kid.example", kid));
    assert!(blocklist.should_block_for("gen.example", kid));

    blocklist.add_blacklist("gen.example").unwrap();
    assert!(blocklist.should_block_for("gen.example", kid));
    assert!(!blocklist.should_block_for("gen.example", None));
}

#[test]
fn whitelisted_parent_overrides_blocked_subdomain() {
    let mut blocklist = Blocklist::new(config(128), no_allow());
    assert!(blocklist.load_from_disk(kept(&["google.com"], &[]), nothing_kept()));

    assert!(blocklist.is_blocked_normalized("www.google.com"));
    assert!(!blocklist.is_whitelisted_normalized("www.google.com"));

    blocklist.add_whitelist("google.com").unwrap();
    assert!(blocklist.is_whitelisted_normalized("www.google.com"));
}

#[test]
fn registrable_names() {
    assert!(is_registrable_or_deeper("example.com"));
    assert!(is_registrable_or_deeper("www.example.com"));
    assert!(is_registrable_or_deeper("bbc.co.uk"));
    assert!(!is_registrable_or_deeper("co.uk"));
    assert!(!is_registrable_or_deeper("com"));
}

#[test]
fn normal_domains_are_lower_case_without_a_dot() {
    assert_eq!(normalise_domain("Ads.Example.Com."), "ads.example.com");
    assert_eq!(normalise_domain("a.."), "a");
    assert_eq!(normalise_domain("\u{c4}.test"), "\u{c4}.test");
}

#[test]
fn wildcards_match_whole_names() {
    let w = Wildcard::new("*.ads.*").unwrap();
    assert!(w.is_match("x.ads.test"));
    assert!(w.is_match("a.b.ads."));
    assert!(!w.is_match("ads.test"));
    assert!(!w.is_match("x.adsxtest"));
    let w = Wildcard::new("a+b.test").unwrap();
    assert!(w.is_match("a+b.test"));
    assert!(!w.is_match("aab.test"));
    assert_eq!(w.pattern_text(), "a+b.test");
    assert!(Wildcard::new("*").is_err());
    assert!(Wildcard::new("***").is_err());
}

#[test]
fn manual_rules_come_and_go() {
    let mut blocklist = Blocklist::new(config(0), no_allow());
    assert!(matches!(blocklist.add_blacklist("*"), Err(FeriteError::Config(_))));
    blocklist.add_blacklist("*.Ads.test").unwrap();
    assert!(blocklist.is_blocked("x.ads.test"));
    assert_eq!(blocklist.list_blacklist(), strings(&["*.ads.test"]));
    blocklist.remove_blacklist("*.ads.TEST.");
    assert!(!blocklist.is_blocked("x.ads.test"));
    assert!(blocklist.list_blacklist().is_empty());

    blocklist.add_blacklist("evil.test").unwrap();
    blocklist.add_whitelist("good.evil.test").unwrap();
    assert!(blocklist.should_block_for("evil.test", None));
    assert!(!blocklist.should_block_for("good.evil.test", None));
    blocklist.remove_whitelist("good.evil.test");
    assert!(blocklist.should_block_for("good.evil.test", None));
    assert!(blocklist.list_whitelist().is_empty());
}

#[test]
fn bypassing_clients_are_known_by_address_or_hardware_address() {
    let mut blocklist = Blocklist::new(config(8), no_allow());
    assert!(!blocklist.has_client_bypass());
    blocklist.set_client_bypass(&strings(&["192.168.1.5", "AA-BB-CC-DD-EE-FF", "junk"]));
    assert!(blocklist.has_client_bypass());
    assert!(blocklist.client_bypasses_blocking("192.168.1.5", None));
    assert!(blocklist.client_bypasses_blocking("::ffff:192.168.1.5", None));
    assert!(blocklist.client_bypasses_blocking("10.0.0.1", Some("aa:bb:cc:dd:ee:ff")));
    assert!(!blocklist.client_bypasses_blocking("10.0.0.1", None));
}

#[test]
fn block_lists_are_subscribed_to_by_name() {
    let mut blocklist = Blocklist::new(config(8), no_allow());
    blocklist.add_list(list("A", "https://a.test")).unwrap();
    match blocklist.add_list(list("A", "https://b.test")) {
        Err(FeriteError::Config(m)) => assert_eq!(m, "list 'A' already exists"),
        other => panic!("unexpected {other:?}"),
    }
    assert!(blocklist.set_list_enabled("A", false));
    assert!(!blocklist.get_lists()[0].enabled);
    assert!(blocklist.remove_list("A"));
    assert!(!blocklist.remove_list("A"));
}

#[test]
fn switching_blocking_off_lets_everything_through() {
    let mut blocklist = Blocklist::new(config(8), no_allow());
    assert!(blocklist.blocking_enabled());
    blocklist.set_blocking_enabled(false);
    assert!(!blocklist.blocking_enabled());
}

#[test]
fn fresh_maps_are_used_and_stale_ones_fetched_again() {
    let hours: u64 = 3_600_000_000_000;
    let caches = |age: u64| ListCaches {
        map: Some(map_of_domains(strings(&["a.test"])).unwrap()),
        map_age: age,
        domains: Some("a.test\nb.test\n".to_string()),
        domains_age: age,
        stats: None,
    };
    match plan_list("L".to_string(), caches(12 * hours), false) {
        ListStep::Ready(r) => {
            assert_eq!(r.name, "L");
            assert_eq!(r.count, 1);
        }
        _ => panic!("the map is fresh"),
    }
    assert!(matches!(plan_list("L".to_string(), caches(12 * hours), true), ListStep::Fetch(_)));
    let mut old_map = caches(12 * hours);
    old_map.map_age += 1;
    match plan_list("L".to_string(), old_map, false) {
        ListStep::Build(d, _) => assert_eq!(d, strings(&["a.test", "b.test"])),
        _ => panic!("the domains are fresh"),
    }
    match plan_list("L".to_string(), caches(12 * hours + 1), false) {
        ListStep::Fetch(c) => {
            let (d, _) = after_fetch(None, &c);
            assert_eq!(d, strings(&["a.test", "b.test"]));
        }
        _ => panic!("nothing is fresh"),
    }
    let kept = build_list(
        "L".to_string(),
        vec![],
        None,
        Some(map_of_domains(strings(&["z.test"])).unwrap()),
        None,
    );
    assert_eq!(kept.count, 1);
    assert_eq!(failed_list().name, "");
}
