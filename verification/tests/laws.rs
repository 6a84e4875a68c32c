use ferrite::blocklist::refresh::sanitize_name;
use ferrite::blocklist::wildcard::Wildcard;
use ferrite::clients::registry::ClientRegistry;
use ferrite::clients::{format_mac, normalize_client_key, parse_ip, parse_mac};
use ferrite::config::{Config, EgressConfig, RuleConfig};
use ferrite::dns::cache::DnsCache;
use ferrite::dns::types::DnsResponse;
use ferrite::ip::{format_ip, format_socket_addr, parse_ip_text, parse_socket_addr, IpAddr, Ipv6};
use ferrite::lru_cache::NANOS_PER_SEC;

fn strings(items: &[&str]) -> Vec<String> {
    items.iter().map(|s| s.to_string()).collect()
}

#[test]
fn the_text_of_an_address_names_it() {
    let segments: Vec<[u16; 8]> = vec![
        [0, 0, 0, 0, 0, 0, 0, 0],
        [0, 0, 0, 0, 0, 0, 0, 1],
        [0x2001, 0xdb8, 0, 0, 1, 0, 0, 1],
        [1, 0, 2, 0, 3, 0, 4, 0],
        [0xfe80, 0, 0, 0, 0xa0ce, 0xc8ff, 0xfe12, 0x3456],
        [0, 0, 0, 0, 0, 0xffff, 0xc0a8, 0x0105],
        [1, 0, 0, 0, 0, 0, 0, 0],
        [0xffff, 0xffff, 0xffff, 0xffff, 0xffff, 0xffff, 0xffff, 0xffff],
    ];
    for s in segments {
        let [s0, s1, s2, s3, s4, s5, s6, s7] = s;
        let ip = IpAddr::V6(Ipv6 { s0, s1, s2, s3, s4, s5, s6, s7 });
        assert_eq!(parse_ip_text(&format_ip(&ip)), Some(ip));
    }
    let text = |s: &str| format_ip(&parse_ip_text(s).unwrap());
    assert_eq!(text("2001:db8:0:0:1:0:0:1"), "2001:db8::1:0:0:1");
    assert_eq!(text("1:0:2:0:3:0:4:0"), "1:0:2:0:3:0:4:0");
    assert_eq!(text("::ffff:c0a8:105"), "::ffff:192.168.1.5");
    assert_eq!(text("0.0.0.0"), "0.0.0.0");
}

#[test]
fn hardware_addresses_are_read_back() {
    for mac in [[0u8; 6], [0xff; 6], [0, 1, 0x0a, 0xa0, 0x7f, 0x80]] {
        let text = format_mac(&mac);
        assert_eq!(parse_mac(&text), Some(mac));
        assert_eq!(parse_ip_text(&text), None);
    }
}

#[test]
fn canonical_client_keys_stay_as_they_are() {
    for (given, key) in [
        (" 192.168.1.5 ", "192.168.1.5"),
        ("::ffff:10.0.0.1", "10.0.0.1"),
        ("FE80::1%eth0", "fe80::1"),
        ("AA-BB-CC-DD-EE-FF", "aa:bb:cc:dd:ee:ff"),
    ] {
        assert_eq!(normalize_client_key(given).as_deref(), Some(key));
        assert_eq!(normalize_client_key(key).as_deref(), Some(key));
    }
}

fn egress(id: &str) -> EgressConfig {
    EgressConfig {
        id: id.to_string(),
        name: String::new(),
        enabled: true,
        kind: " Direct ".to_string(),
        address: None,
        port: None,
        username: None,
        password: None,
        config: None,
        seg_position: None,
        buffer_kb: None,
        tx_buffer_kb: None,
    }
}

fn rule(pattern: &str, egress: &str) -> RuleConfig {
    RuleConfig { pattern: pattern.to_string(), egress: egress.to_string(), fail_closed: true, clients: vec![] }
}

#[test]
fn canonical_routing_is_consistent() {
    let mut c = Config::with_data_dir("/data");
    c.proxy.egresses = vec![egress(" A "), egress(""), egress("b"), egress("a")];
    c.proxy.rules = vec![rule("X.test.", " A"), rule(" . ", "a"), rule("y.test", "c"), rule("*.z.test", "B")];
    c.api.api_key = Some("  key ".to_string());
    c.blocklist.client_bypass = strings(&["junk", "AA-BB-CC-DD-EE-FF", "10.0.0.2", "10.0.0.10", " 10.0.0.2"]);
    let c = c.normalized();
    let ids: Vec<&str> = c.proxy.egresses.iter().map(|e| e.id.as_str()).collect();
    assert_eq!(ids, vec!["b", "a"]);
    let rules: Vec<(&str, &str)> = c.proxy.rules.iter().map(|r| (r.pattern.as_str(), r.egress.as_str())).collect();
    assert_eq!(rules, vec![("x.test", "a"), ("*.z.test", "b")]);
    assert_eq!(c.api.api_key.as_deref(), Some("key"));
    let keys = strings(&["10.0.0.10", "10.0.0.2", "aa:bb:cc:dd:ee:ff"]);
    assert_eq!(c.blocklist.client_bypass, keys);
    let again = c.normalized();
    assert_eq!(again.api.api_key.as_deref(), Some("key"));
    assert_eq!(again.blocklist.client_bypass, keys);
}

#[test]
fn given_names_win_and_stay() {
    let mac = parse_mac("a2:ce:c8:12:34:56").unwrap();
    let bindings = vec![("192.168.1.5".to_string(), "a2:ce:c8:12:34:56".to_string())];
    let mut r = ClientRegistry::new(&vec![], &vec![], &bindings, 0);
    let ip = parse_ip("192.168.1.5").unwrap();
    r.record_resolution(&ip, Some("found".to_string()), 0);
    assert_eq!(r.get_name(ip).as_deref(), Some("found"));
    r.add_mac_alias(mac, "device".to_string());
    assert_eq!(r.get_name(ip).as_deref(), Some("device"));
    r.add_ip_alias(ip, "address".to_string());
    assert_eq!(r.get_name(ip).as_deref(), Some("address"));
    r.prune_learned_ips(&strings(&["192.168.1.5"]), u64::MAX);
    assert_eq!(r.get_name(ip).as_deref(), Some("address"));
    r.clear_learned_ips();
    assert_eq!(r.get_name(ip).as_deref(), Some("address"));
    assert_eq!(r.cache_sizes(), (0, 0));
    r.remove_ip_alias(ip);
    assert_eq!(r.get_name(ip), None);
}

#[test]
fn cached_lifetimes_stay_within_their_bounds() {
    let mut cache = DnsCache::new(8, 60, 300);
    cache.insert_at("long.test", 1, DnsResponse { bytes: vec![1], ttl: 100_000 }, 0);
    cache.insert_at("short.test", 1, DnsResponse { bytes: vec![1], ttl: 1 }, 0);
    assert_eq!(cache.get_with_remaining_at("long.test", 1, 0).unwrap().1, 300);
    assert_eq!(cache.get_with_remaining_at("short.test", 1, 0).unwrap().1, 60);
    assert!(cache.get_with_remaining("long.test", 1).unwrap().1 <= 300);
    assert!(cache.get_with_remaining_at("long.test", 1, 300 * NANOS_PER_SEC).is_none());
    cache.evict("long.test", 1);
    assert!(cache.get_at("long.test", 1, 0).is_none());
    assert!(cache.get_at("short.test", 1, 0).is_some());
}

#[test]
fn socket_addresses_keep_their_zone() {
    for s in ["10.0.0.1:53", "[fe80::1%7]:5353", "[::ffff:1.2.3.4]:80"] {
        let a = parse_socket_addr(s).unwrap();
        assert_eq!(format_socket_addr(&a), s);
    }
}

#[test]
fn leading_stars_stand_for_any_start() {
    let w = Wildcard::new("*.example.com").unwrap();
    assert!(w.is_match("a.example.com") && w.is_match("a.b.example.com") && w.is_match(".example.com"));
    assert!(!w.is_match("example.com") && !w.is_match("aexample.com") && !w.is_match("a.example.com.evil"));
    assert!(!w.is_match("a\n.example.com"));
    let literal = Wildcard::new("a.example").unwrap();
    assert!(literal.is_match("a.example") && !literal.is_match("abexample") && !literal.is_match("a.example."));
}

#[test]
fn file_names_hold_no_separators() {
    assert_eq!(sanitize_name("../etc/passwd"), "___etc_passwd");
    assert_eq!(sanitize_name("My List-1_\u{e4}"), "My_List-1_\u{e4}");
}
