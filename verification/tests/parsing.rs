use ferrite::blocklist::loader::{
    build_fst, check_resolved, is_blocked_ip, map_of_domains, merge_domain_lists, merge_fsts, parse_content,
    parse_content_for, validate_remote_list_url,
};
use ferrite::blocklist::parser::{
    is_adblock_syntax, is_valid_domain, parse_adblock, parse_adblock_exceptions, parse_hosts, parse_plain,
};
use ferrite::blocklist::refresh::{
    format_text_cache, parse_text_cache, sanitize_name, ListPolarity,
};
use ferrite::blocklist::fst_map::ram_fst;
use ferrite::error::FeriteError;
use ferrite::ip::{parse_ip_text, IpAddr};

fn ip(s: &str) -> IpAddr {
    parse_ip_text(s).unwrap()
}

#[test]
fn test_parse_hosts() {
    let content =
        "127.0.0.1 localhost\n0.0.0.0 ads.example.com # bad ad\n0.0.0.0 tracker.evil.com\n";
    let domains = parse_hosts(content);
    assert!(domains.contains(&"ads.example.com".to_string()));
    assert!(domains.contains(&"tracker.evil.com".to_string()));
    assert!(!domains.contains(&"localhost".to_string()));
}

#[test]
fn test_parse_adblock() {
    let content = "! comment\n||ads.example.com^\n||tracker.evil.com^$important\n";
    let (domains, stats) = parse_adblock(content);
    assert!(domains.contains(&"ads.example.com".to_string()));
    assert!(domains.contains(&"tracker.evil.com".to_string()));
    assert_eq!(stats.kept, 2);
}

#[test]
fn adblock_exception_rules_unblock_domain() {
    let content = "||good.com^\n||ads.evil.com^\n@@||good.com^\n";
    let (domains, stats) = parse_adblock(content);
    assert!(!domains.contains(&"good.com".to_string()));
    assert!(domains.contains(&"ads.evil.com".to_string()));
    assert_eq!(stats.exceptions, 1);
    assert_eq!(stats.unblocked_by_exception, 1);
}

#[test]
fn adblock_skips_referrer_scoped_rules() {
    let content = "||cdn.example.com^$domain=othersite.com\n||tracker.evil.com^$third-party\n";
    let (domains, stats) = parse_adblock(content);
    assert!(
        !domains.contains(&"cdn.example.com".to_string()),
        "referrer-scoped rule must not produce a global block"
    );
    assert!(domains.contains(&"tracker.evil.com".to_string()));
    assert_eq!(stats.scoped_skipped, 1);
}

#[test]
fn adblock_skips_path_scoped_rules() {
    let content = "\
||google.com/adsense/domains/caf.js\n\
||google.com/pagead/conversion_async.js\n\
||cse.google.com/cse_v2/ads$subdocument\n\
||doubleclick.net^\n\
||mail-ads.google.com^\n";
    let (domains, stats) = parse_adblock(content);
    assert!(
        !domains.contains(&"google.com".to_string()),
        "path rule must not block the whole google.com"
    );
    assert!(!domains.contains(&"cse.google.com".to_string()));
    assert!(domains.contains(&"doubleclick.net".to_string()));
    assert!(domains.contains(&"mail-ads.google.com".to_string()));
    assert_eq!(stats.unsupported_skipped, 3);
}

#[test]
fn parse_plain_ignores_adblock_cosmetic_rules() {
    let content = "\
google.com##.GGQPGYLCD5\n\
google.com##.GGQPGYLCMCB\n\
&rb=&uuid=$third-party\n\
||doubleclick.net^\n\
ads.example.com  # a real plain entry\n";
    let domains = parse_plain(content);
    assert!(
        !domains.contains(&"google.com".to_string()),
        "google.com must not be extracted from a cosmetic rule"
    );
    assert!(!domains.contains(&"doubleclick.net".to_string()));
    assert!(domains.contains(&"ads.example.com".to_string()));
}

#[test]
fn parse_adblock_exceptions_harvests_exception_rules() {
    let content = "\
! comment\n\
||ads.example.com^\n\
@@||good.example.com^\n\
@@||cdn.example.com^$important\n\
@@||scoped.example.com^$domain=onlyhere.com\n\
google.com##.cosmetic\n";
    let (domains, stats) = parse_adblock_exceptions(content);
    assert_eq!(
        domains,
        vec![
            "good.example.com".to_string(),
            "cdn.example.com".to_string()
        ]
    );
    assert!(
        !domains.contains(&"ads.example.com".to_string()),
        "a block rule must not become an allow entry"
    );
    assert_eq!(stats.kept, 2);
    assert_eq!(stats.exceptions, 3);
    assert_eq!(stats.scoped_skipped, 1);
    assert_eq!(stats.cosmetic_skipped, 1);
    assert_eq!(stats.unsupported_skipped, 1);
}

#[test]
fn parse_adblock_exceptions_skips_path_scoped_rules() {
    let content = "@@||google.com/recaptcha/^\n@@||accounts.google.com^\n";
    let (domains, stats) = parse_adblock_exceptions(content);
    assert_eq!(domains, vec!["accounts.google.com".to_string()]);
    assert_eq!(stats.unsupported_skipped, 1);
}

#[test]
fn is_adblock_syntax_classification() {
    assert!(is_adblock_syntax("||doubleclick.net^"));
    assert!(is_adblock_syntax("@@||good.com^"));
    assert!(is_adblock_syntax("google.com##.cls"));
    assert!(is_adblock_syntax("example.com#?#div"));
    assert!(is_adblock_syntax("&rb=&uuid=$third-party"));
    assert!(is_adblock_syntax("||example.com^$third-party"));
    assert!(!is_adblock_syntax("ads.example.com"));
    assert!(!is_adblock_syntax("tracker.evil.com  # comment"));
    assert!(!is_adblock_syntax("casino.com # costs $$$"));
    assert!(!is_adblock_syntax("0.0.0.0 ads.example.com # blocks $ ads"));
}

#[test]
fn easylist_detected_as_adblock_not_plain() {
    let content = "\
[Adblock Plus 2.0]\n\
! Title: EasyList\n\
&rb=&uuid=$third-party\n\
||doubleclick.net^\n\
google.com##.GGQPGYLCD5\n\
www.google.com##.GISRH3UDHB\n";
    let (domains, stats) = parse_content(content);
    assert!(stats.is_some(), "adblock list must report parse stats");
    assert!(
        domains.contains(&"doubleclick.net".to_string()),
        "real ||domain^ rules must be parsed"
    );
    assert!(
        !domains.contains(&"google.com".to_string()),
        "google.com must not be blocked"
    );
    assert!(!domains.contains(&"www.google.com".to_string()));
}

#[test]
fn easylist_without_header_still_detected_via_first_rule() {
    let content = "&rb=&uuid=$third-party\n||tracker.example^\ngoogle.com##.cls\n";
    let (domains, _) = parse_content(content);
    assert!(domains.contains(&"tracker.example".to_string()));
    assert!(!domains.contains(&"google.com".to_string()));
}

#[test]
fn hosts_with_dollar_in_comment_not_misdetected_as_adblock() {
    let content = "0.0.0.0 casino.example # costs $$$\n0.0.0.0 ads.example\n";
    let (domains, stats) = parse_content(content);
    assert!(stats.is_none(), "hosts list has no adblock parse stats");
    assert!(domains.contains(&"casino.example".to_string()));
    assert!(domains.contains(&"ads.example".to_string()));
}

#[test]
fn ip_classification() {
    assert!(is_blocked_ip(&ip("127.0.0.1")));
    assert!(is_blocked_ip(&ip("169.254.169.254")));
    assert!(is_blocked_ip(&ip("10.1.2.3")));
    assert!(is_blocked_ip(&ip("192.168.0.1")));
    assert!(is_blocked_ip(&ip("172.16.5.5")));
    assert!(is_blocked_ip(&ip("100.64.0.1")));
    assert!(is_blocked_ip(&ip("::1")));
    assert!(is_blocked_ip(&ip("fc00::1")));
    assert!(is_blocked_ip(&ip("fe80::1")));

    assert!(!is_blocked_ip(&ip("1.1.1.1")));
    assert!(!is_blocked_ip(&ip("8.8.8.8")));
    assert!(!is_blocked_ip(&ip("2606:4700:4700::1111")));
}

fn assert_rejected(url: &str) {
    let res = validate_remote_list_url(url);
    assert!(res.is_err(), "expected {url} to be rejected");
}

fn assert_accepted(url: &str) {
    let res = validate_remote_list_url(url);
    assert!(matches!(res, Ok(None)), "expected {url} to be accepted");
}

#[test]
fn rejects_file_scheme() {
    assert_rejected("file:///etc/passwd");
}

#[test]
fn rejects_non_http_schemes() {
    assert_rejected("ftp://example.com/list.txt");
    assert_rejected("gopher://example.com/");
}

#[test]
fn rejects_loopback_ipv4() {
    assert_rejected("http://127.0.0.1/list.txt");
    assert_rejected("http://127.0.0.1:8080/list.txt");
}

#[test]
fn rejects_loopback_ipv6() {
    assert_rejected("http://[::1]/list.txt");
}

#[test]
fn rejects_cloud_metadata_ip() {
    assert_rejected("http://169.254.169.254/latest/meta-data/");
}

#[test]
fn rejects_private_ipv4() {
    assert_rejected("http://192.168.1.1/list.txt");
    assert_rejected("http://10.0.0.5/list.txt");
    assert_rejected("http://172.16.0.1/list.txt");
}

#[test]
fn rejects_unspecified_and_broadcast() {
    assert_rejected("http://0.0.0.0/list.txt");
    assert_rejected("http://255.255.255.255/list.txt");
}

#[test]
fn rejects_localhost_hostname() {
    for url in [
        "http://localhost/list.txt",
        "http://localhost:9000/list.txt",
        "http://LOCALHOST/list.txt",
    ] {
        match validate_remote_list_url(url) {
            Err(_) => {}
            Ok(host) => {
                let host = host.expect("a host name has to be resolved");
                assert!(check_resolved(&host, Ok(vec![ip("127.0.0.1")])).is_err());
            }
        }
    }
}

#[test]
fn accepts_public_ip_literal() {
    assert_accepted("http://1.1.1.1/list.txt");
    assert_accepted("https://8.8.8.8/hosts");
}

#[test]
fn host_names_are_resolved_before_they_are_accepted() {
    let host = validate_remote_list_url("https://lists.example.com/hosts").unwrap().unwrap();
    assert_eq!(host, "lists.example.com");
    assert!(check_resolved(&host, Ok(vec![ip("1.1.1.1"), ip("2606:4700:4700::1111")])).is_ok());
    assert!(check_resolved(&host, Ok(vec![ip("1.1.1.1"), ip("10.0.0.1")])).is_err());
    assert!(check_resolved(&host, Ok(vec![])).is_err());
    assert!(check_resolved(&host, Err("no such host".to_string())).is_err());
    assert!(validate_remote_list_url("not a url").is_err());
}

#[test]
fn build_fst_strips_trailing_root_dot() {
    let bytes = build_fst(vec![
        "ads.example.com.".to_string(),
        "ads.example.com".to_string(),
        "tracker.test.".to_string(),
    ])
    .unwrap();
    let map = fst::Map::new(bytes).unwrap();

    assert_eq!(map.len(), 2);
    assert!(map.contains_key(b"ads.example.com"));
    assert!(map.contains_key(b"tracker.test"));
    assert!(!map.contains_key(b"ads.example.com."));
}

#[test]
fn merged_maps_hold_the_names_of_all() {
    let a = build_fst(vec!["a.test".to_string(), "c.test".to_string()]).unwrap();
    let b = build_fst(vec!["b.test".to_string(), "c.test".to_string()]).unwrap();
    let both = ram_fst(merge_fsts(&vec![a.clone(), b]).unwrap()).unwrap();
    assert_eq!(both.len(), 3);
    assert!(both.contains_key("a.test") && both.contains_key("b.test") && both.contains_key("c.test"));
    assert!(!both.contains_key("d.test"));

    assert_eq!(merge_fsts(&vec![a.clone()]).unwrap(), a);
    assert_eq!(ram_fst(merge_fsts(&vec![]).unwrap()).unwrap().len(), 0);
    let r = merge_fsts(&vec![a, vec![1, 2, 3]]);
    assert!(matches!(r, Err(FeriteError::Fst(_))));

    let lists = vec![vec!["x.test".to_string()], vec![], vec!["y.test.".to_string()]];
    let m = ram_fst(merge_domain_lists(lists).unwrap()).unwrap();
    assert_eq!(m.len(), 2);
    assert!(m.contains_key("y.test"));
}

#[test]
fn maps_find_exactly_their_names() {
    let m = map_of_domains(vec!["b.test".to_string(), "a.test".to_string()]).unwrap();
    assert!(m.contains_key("a.test"));
    assert!(!m.contains_key("a.tes"));
    assert!(!m.contains_key("sub.a.test"));
    assert!(ram_fst(vec![0; 5]).is_err());
}

#[test]
fn polarity_decides_what_an_adblock_list_gives() {
    let content = "[Adblock Plus 2.0]\n||ads.example.com^\n@@||good.example.com^\n";
    let (block, _) = parse_content_for(content, ListPolarity::Block);
    let (allow, _) = parse_content_for(content, ListPolarity::Allow);
    assert_eq!(block, vec!["ads.example.com".to_string()]);
    assert_eq!(allow, vec!["good.example.com".to_string()]);
}

#[test]
fn plausible_domains() {
    assert!(is_valid_domain("a.b"));
    assert!(is_valid_domain("xn--bcher-kva.example"));
    assert!(is_valid_domain("b\u{fc}cher.example"));
    assert!(!is_valid_domain("localhost"));
    assert!(!is_valid_domain(""));
    assert!(!is_valid_domain("a b.c"));
    let long = format!("{}.b", "a".repeat(251));
    assert_eq!(long.len(), 253);
    assert!(is_valid_domain(&long));
    assert!(!is_valid_domain(&format!("a{long}")));
}

#[test]
fn kept_domains_read_back() {
    let domains = vec!["a.test".to_string(), "b.test".to_string()];
    let text = format_text_cache(&domains);
    assert_eq!(parse_text_cache(&text), domains);
    assert_eq!(parse_text_cache("a.test\r\n\nb.test"), domains);
}

#[test]
fn names_of_files_hold_only_safe_characters() {
    assert_eq!(sanitize_name("My List/../x"), "My_List____x");
    assert_eq!(sanitize_name("a-b_c.9"), "a-b_c_9");
    assert_eq!(sanitize_name("\u{e4}\u{2603}"), "\u{e4}_");
}

#[test]
fn a_header_anywhere_marks_a_filter_list() {
    let content = "ads.example.com\n[Adblock Plus 2.0]\n||x.example.com^\n@@||y.example.com^\n";
    let (domains, stats) = parse_content(content);
    assert_eq!(domains, vec!["x.example.com".to_string()]);
    let stats = stats.unwrap();
    assert_eq!((stats.kept, stats.exceptions, stats.unsupported_skipped), (1, 1, 0));
    let (allowed, _) = parse_content_for(content, ListPolarity::Allow);
    assert_eq!(allowed, vec!["y.example.com".to_string()]);
    let (plain, none) = parse_content("ads.example.com\nAdblock.example.com\n");
    assert_eq!(plain.len(), 2);
    assert!(none.is_none());
}

#[test]
fn every_cosmetic_marker_is_counted() {
    for line in ["example.com##.x", "example.com#?#.x", "example.com#@#.x", "example.com#$#body"] {
        let (domains, stats) = parse_adblock(line);
        assert!(domains.is_empty());
        assert_eq!((stats.cosmetic_skipped, stats.unsupported_skipped), (1, 0));
        let (_, stats) = parse_adblock_exceptions(line);
        assert_eq!((stats.cosmetic_skipped, stats.unsupported_skipped), (1, 0));
    }
}

#[test]
fn added_exceptions_take_out_one_domain() {
    let list = "||a.test^\n||x.a.test^\n||b.test^\r\n||a.test^";
    let (before, s) = parse_adblock(list);
    assert_eq!(before.len(), 4);
    for more in [format!("{list}\n@@||a.test^"), format!("@@||a.test^\n{list}")] {
        let (after, t) = parse_adblock(&more);
        assert_eq!(after, vec!["x.a.test".to_string(), "b.test".to_string()]);
        assert_eq!(s.kept + s.unblocked_by_exception, t.kept + t.unblocked_by_exception);
    }
}

#[test]
fn white_space_is_in_no_domain() {
    for c in ['\u{85}', '\u{a0}', '\u{1680}', '\u{2003}', '\u{2028}', '\u{202f}', '\u{205f}', '\u{3000}', '\t'] {
        let (kept, stats) = parse_adblock(&format!("||a{c}b.test^\n||b.test^\n@@||{c}b.test{c}^\n"));
        assert!(kept.is_empty(), "{c:?}");
        assert_eq!(stats.unsupported_skipped, 1, "{c:?}");
        assert_eq!(stats.exceptions, 1, "{c:?}");
        assert!(!c.is_alphanumeric(), "{c:?}");
    }
    let (kept, _) = parse_adblock("||b\u{fc}cher.test^");
    assert_eq!(kept, vec!["b\u{fc}cher.test".to_string()]);
}

#[test]
fn options_of_an_exception_are_ignored() {
    for rule in ["@@||a.test^$important", "@@||a.test$important", "@@||a.test$domain=other.test", "@@||A.test"] {
        let (kept, stats) = parse_adblock(&format!("||a.test^\n||b.test^\n{rule}\n"));
        assert_eq!(kept, vec!["b.test".to_string()], "{rule}");
        assert_eq!(stats.exceptions, 1, "{rule}");
        assert_eq!(stats.unblocked_by_exception, 1, "{rule}");
    }
}

#[test]
fn equal_names_give_equal_files() {
    let of = |names: &[&str]| build_fst(names.iter().map(|n| n.to_string()).collect()).unwrap();
    let file = of(&["b.test", "a.test"]);
    assert_eq!(of(&["a.test", "b.test"]), file);
    assert_eq!(of(&["a.test", "b.test.", "a.test", "b.test"]), file);
    assert_eq!(merge_fsts(&vec![of(&["b.test"]), of(&["a.test", "b.test"])]).unwrap(), file);
    let map = fst::Map::new(file).unwrap();
    assert_eq!(map.get("a.test"), Some(1));
    assert_eq!(map.get("b.test"), Some(1));
}

#[test]
fn patterns_of_stars_alone_are_refused_with_a_reason() {
    let mut blocklist = ferrite::blocklist::engine::Blocklist::new(Default::default(), Default::default());
    for r in [blocklist.add_whitelist("*"), blocklist.add_blacklist("**")] {
        match r {
            Err(FeriteError::Config(m)) => assert_eq!(m, "wildcard pattern cannot match everything"),
            other => panic!("unexpected {other:?}"),
        }
    }
}
