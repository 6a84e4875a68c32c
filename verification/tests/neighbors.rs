use ferrite::clients::mac::{
    extract_eui64_mac, find_mac, parse_ipv4_for_mac, parse_mac, parse_mac_for_ipv6, parse_neighbor_line, scan_table,
};
use ferrite::clients::registry::ClientRegistry;
use ferrite::clients::resolver::{
    build_ptr_query, continue_search, normalize_hostname, parse_ptr_response, ptr_query, query_id, random_query_id,
    start_search, Lookup, LookupAnswer, Progress, Search,
};
use ferrite::clients::table::{ip_of_key, key_of_ip, key_of_mac, mac_of_key};
use ferrite::clients::{format_mac, ip_to_ptr_domain, is_link_local_v6, normalize_client_key, parse_ip, unmap_v4};
use ferrite::ip::{format_ip, parse_ip_text, IpAddr, Ipv4, Ipv6};
use hickory_proto::op::{Message, OpCode};
use hickory_proto::rr::rdata::PTR;
use hickory_proto::rr::{Name, RData, Record, RecordType};
use hickory_proto::serialize::binary::{BinDecodable, BinEncodable};

const MAC: [u8; 6] = [0xa2, 0xce, 0xc8, 0x12, 0x34, 0x56];

fn ip(s: &str) -> IpAddr {
    parse_ip_text(s).unwrap()
}

fn v4(s: &str) -> Ipv4 {
    match ip(s) {
        IpAddr::V4(v) => v,
        IpAddr::V6(_) => panic!("not an IPv4 address"),
    }
}

fn v6(s: &str) -> Ipv6 {
    match ip(s) {
        IpAddr::V6(v) => v,
        IpAddr::V4(_) => panic!("not an IPv6 address"),
    }
}

#[test]
fn eui64_extraction() {
    assert_eq!(
        extract_eui64_mac(&v6("fe80::a0ce:c8ff:fe12:3456")),
        Some([0xa2, 0xce, 0xc8, 0x12, 0x34, 0x56])
    );
}

#[test]
fn eui64_privacy_extensions_rejected() {
    assert!(extract_eui64_mac(&v6("fe80::1234:5678:9abc:def0")).is_none());
}

#[test]
fn parse_mac_colon() {
    assert_eq!(
        parse_mac("a2:ce:c8:12:34:56"),
        Some([0xa2, 0xce, 0xc8, 0x12, 0x34, 0x56])
    );
}

#[test]
fn parse_mac_rejects_broadcast() {
    assert!(parse_mac("ff:ff:ff:ff:ff:ff").is_none());
}

#[test]
fn arp_table_macos() {
    let text = "? (192.168.1.5) at a2:ce:c8:12:34:56 on en0 ifscope [ethernet]\n\
                ? (192.168.1.1) at 00:11:22:33:44:55 on en0 ifscope [ethernet]\n";
    assert_eq!(
        parse_ipv4_for_mac(text, [0xa2, 0xce, 0xc8, 0x12, 0x34, 0x56]),
        Some(v4("192.168.1.5"))
    );
}

#[test]
fn arp_table_linux() {
    let text = "192.168.1.5 dev eth0 lladdr a2:ce:c8:12:34:56 REACHABLE\n\
                192.168.1.1 dev eth0 lladdr 00:11:22:33:44:55 REACHABLE\n";
    assert_eq!(
        parse_ipv4_for_mac(text, [0xa2, 0xce, 0xc8, 0x12, 0x34, 0x56]),
        Some(v4("192.168.1.5"))
    );
}

#[test]
fn ndp_table_linux() {
    let text = "fe80::a0ce:c8ff:fe12:3456 dev eth0 lladdr a2:ce:c8:12:34:56 REACHABLE\n\
                fd00::1234 dev eth0 lladdr 00:11:22:33:44:55 STALE\n";
    assert_eq!(
        parse_mac_for_ipv6(text, v6("fe80::a0ce:c8ff:fe12:3456")),
        Some([0xa2, 0xce, 0xc8, 0x12, 0x34, 0x56])
    );
}

#[test]
fn neighbor_line_parses_macos_arp() {
    assert_eq!(
        parse_neighbor_line("? (192.168.1.5) at a2:ce:c8:12:34:56 on en0 ifscope [ethernet]"),
        Some((ip("192.168.1.5"), [0xa2, 0xce, 0xc8, 0x12, 0x34, 0x56]))
    );
}

#[test]
fn neighbor_line_parses_linux_neigh() {
    assert_eq!(
        parse_neighbor_line("192.168.1.5 dev eth0 lladdr a2:ce:c8:12:34:56 REACHABLE"),
        Some((ip("192.168.1.5"), [0xa2, 0xce, 0xc8, 0x12, 0x34, 0x56]))
    );
}

#[test]
fn neighbor_line_parses_ipv6_ndp_with_scope() {
    assert_eq!(
        parse_neighbor_line("fe80::a0ce:c8ff:fe12:3456%en0 a2:ce:c8:12:34:56 en0 23h59m R"),
        Some((
            ip("fe80::a0ce:c8ff:fe12:3456"),
            [0xa2, 0xce, 0xc8, 0x12, 0x34, 0x56]
        ))
    );
}

#[test]
fn neighbor_line_without_mac_is_skipped() {
    assert_eq!(parse_neighbor_line("192.168.1.9 dev eth0  INCOMPLETE"), None);
}

#[test]
fn ndp_table_macos_with_scope_id() {
    let text = "fe80::a0ce:c8ff:fe12:3456%en0 a2:ce:c8:12:34:56 en0 23h59m R\n\
                fd00::1234%en0 00:11:22:33:44:55 en0 18m S\n";
    assert_eq!(
        parse_mac_for_ipv6(text, v6("fe80::a0ce:c8ff:fe12:3456")),
        Some([0xa2, 0xce, 0xc8, 0x12, 0x34, 0x56])
    );
}

#[test]
fn tables_are_scanned_line_by_line() {
    let text = "192.168.1.5 dev eth0 lladdr a2:ce:c8:12:34:56 REACHABLE\n\
                192.168.1.9 dev eth0  INCOMPLETE\n\
                192.168.1.1 dev eth0 lladdr 00:11:22:33:44:55 STALE\n";
    let mut out = vec![];
    scan_table(text, &mut out);
    assert_eq!(
        out,
        vec![
            (ip("192.168.1.5"), MAC),
            (ip("192.168.1.1"), [0, 0x11, 0x22, 0x33, 0x44, 0x55])
        ]
    );
    assert_eq!(find_mac("x a2:ce:c8:12:34:56 y"), Some(MAC));
}

#[test]
fn hardware_addresses_read_back() {
    for m in [MAC, [0, 1, 2, 3, 4, 5], [0xff, 0xff, 0xff, 0xff, 0xff, 0xfe]] {
        assert_eq!(ferrite::clients::parse_mac(&format_mac(&m)), Some(m));
    }
    assert_eq!(format_mac(&MAC), "a2:ce:c8:12:34:56");
    assert_eq!(ferrite::clients::parse_mac("A2-CE-C8-12-34-56"), Some(MAC));
    assert_eq!(ferrite::clients::parse_mac("a2:ce:c8:12:34"), None);
}

#[test]
fn addresses_read_back() {
    for s in [
        "0.0.0.0",
        "255.254.253.252",
        "::",
        "::1",
        "1::",
        "2001:db8::1",
        "2001:db8:0:1:1:1:1:1",
        "1:0:0:2::3",
        "::ffff:1.2.3.4",
        "fe80::a0ce:c8ff:fe12:3456",
    ] {
        assert_eq!(format_ip(&ip(s)), s);
    }
    assert_eq!(format_ip(&ip("1:0:0:0:2:0:0:3")), "1::2:0:0:3");
    assert!(parse_ip_text("1.2.3").is_none());
    assert!(parse_ip_text("01.2.3.4").is_none());
    assert!(parse_ip_text("1:2:3:4:5:6:7").is_none());
    assert!(parse_ip_text("1::2::3").is_none());
}

#[test]
fn client_keys_have_one_form() {
    assert_eq!(normalize_client_key(" AA-BB-CC-DD-EE-FF ").as_deref(), Some("aa:bb:cc:dd:ee:ff"));
    assert_eq!(normalize_client_key("::ffff:192.0.2.10").as_deref(), Some("192.0.2.10"));
    assert_eq!(normalize_client_key("192.0.2.10").as_deref(), Some("192.0.2.10"));
    assert_eq!(normalize_client_key("laptop"), None);
    assert_eq!(unmap_v4(ip("::ffff:192.0.2.10")), ip("192.0.2.10"));
    assert_eq!(parse_ip("2001:db8::1"), Some(ip("2001:db8::1")));
    assert!(is_link_local_v6(&v6("fe80::1")) && !is_link_local_v6(&v6("fec0::1")));
}

#[test]
fn table_keys_read_back() {
    for s in ["1.2.3.4", "2001:db8::1", "::", "0.0.0.0"] {
        assert_eq!(ip_of_key(&key_of_ip(&ip(s))), ip(s));
    }
    assert_eq!(mac_of_key(&key_of_mac(&MAC)), MAC);
    assert_ne!(key_of_ip(&ip("0.0.0.0")), key_of_ip(&ip("::")));
}

#[test]
fn reverse_names() {
    assert_eq!(ip_to_ptr_domain(&ip("1.2.3.4")), "4.3.2.1.in-addr.arpa");
    assert_eq!(
        ip_to_ptr_domain(&ip("2001:db8::567:89ab")),
        "b.a.9.8.7.6.5.0.0.0.0.0.0.0.0.0.0.0.0.0.0.0.0.0.8.b.d.0.1.0.0.2.ip6.arpa"
    );
}

#[test]
fn host_names_lose_their_local_suffix() {
    assert_eq!(normalize_hostname("laptop.local"), "laptop");
    assert_eq!(normalize_hostname(".local"), ".local");
    assert_eq!(normalize_hostname("www.example.com"), "www.example.com");
}

#[test]
fn query_ids_are_made_of_two_bytes() {
    assert_eq!(query_id(Some(vec![0x12, 0x34])), Some(0x1234));
    assert_eq!(query_id(Some(vec![0xff, 0xff])), Some(0xffff));
    assert_eq!(query_id(None), None);
    assert!(random_query_id().is_some());
}

#[test]
fn pointer_queries_and_their_answers() {
    let bytes = ptr_query("4.3.2.1.in-addr.arpa", 0x4242).unwrap();
    let msg = Message::from_bytes(&bytes).unwrap();
    assert_eq!(msg.metadata.id, 0x4242);
    assert!(msg.metadata.recursion_desired);
    assert_eq!(msg.queries.len(), 1);
    assert_eq!(msg.queries[0].query_type(), RecordType::PTR);
    assert!(build_ptr_query("4.3.2.1.in-addr.arpa").is_some());

    let mut resp = Message::response(7, OpCode::Query);
    let name = Name::from_ascii("4.3.2.1.in-addr.arpa.").unwrap();
    let target = Name::from_ascii("host.example.com.").unwrap();
    resp.add_answer(Record::from_rdata(name, 60, RData::PTR(PTR(target))));
    assert_eq!(parse_ptr_response(&resp.to_bytes().unwrap()).as_deref(), Some("host.example.com"));
    assert_eq!(parse_ptr_response(&Message::response(7, OpCode::Query).to_bytes().unwrap()), None);
    assert_eq!(parse_ptr_response(b"junk"), None);
}

fn registry() -> ClientRegistry {
    ClientRegistry::new(
        &vec![("192.168.1.7".to_string(), "ip".to_string(), "printer".to_string())],
        &vec![],
        &vec![("192.168.1.5".to_string(), "a2:ce:c8:12:34:56".to_string())],
        0,
    )
}

#[test]
fn names_come_from_aliases_devices_and_lookups() {
    let mut r = registry();
    assert_eq!(r.get_name(ip("192.168.1.7")).as_deref(), Some("printer"));
    assert!(r.is_aliased(ip("192.168.1.7")));
    assert_eq!(r.get_name(ip("192.168.1.5")), None);
    assert_eq!(r.get_mac(ip("192.168.1.5")).as_deref(), Some("a2:ce:c8:12:34:56"));
    assert_eq!(r.mac_for_ip(&ip("192.168.1.5")), Some(MAC));

    r.add_mac_alias(MAC, "laptop".to_string());
    assert_eq!(r.get_name(ip("192.168.1.5")).as_deref(), Some("laptop"));
    r.add_ip_alias(ip("192.168.1.5"), "desk".to_string());
    assert_eq!(r.get_name(ip("192.168.1.5")).as_deref(), Some("desk"));
    r.remove_ip_alias(ip("192.168.1.5"));
    r.remove_mac_alias(MAC);
    assert_eq!(r.get_name(ip("192.168.1.5")), None);
    assert_eq!(r.list_aliases().len(), 1);

    r.record_resolution(&ip("192.168.1.9"), Some("found".to_string()), 0);
    assert_eq!(r.get_name(ip("192.168.1.9")).as_deref(), Some("found"));
}

#[test]
fn names_are_looked_for_once_at_a_time() {
    let mut r = registry();
    assert!(r.trigger_resolve(ip("192.168.1.5"), 0));
    assert!(!r.trigger_resolve(ip("192.168.1.5"), 0));
    r.resolve_finished(&ip("192.168.1.5"));
    assert!(r.trigger_resolve(ip("192.168.1.5"), 0));
    assert!(!r.trigger_resolve(ip("192.168.1.7"), 0));
    let ips = vec!["192.168.1.20".to_string(), "junk".to_string(), "192.168.1.20".to_string()];
    assert_eq!(r.trigger_resolve_all(&ips, 0), vec![ip("192.168.1.20")]);
}

#[test]
fn bindings_follow_the_neighbour_table() {
    let mut r = registry();
    let other = [0, 1, 2, 3, 4, 5];
    let learned = r.refresh_neighbor_table(&vec![(ip("192.168.1.5"), MAC), (ip("192.168.1.6"), other)]);
    assert_eq!(learned, vec![(ip("192.168.1.6"), other)]);
    assert!(r.bind(&ip("192.168.1.6"), MAC));
    assert!(!r.bind(&ip("192.168.1.6"), MAC));
    let mut ips = r.ips_for_device("a2:ce:c8:12:34:56");
    ips.sort();
    assert_eq!(ips, vec!["192.168.1.5".to_string(), "192.168.1.6".to_string()]);
    r.prune_learned_ips(&vec!["192.168.1.5".to_string()], 0);
    assert_eq!(r.ips_for_device("a2:ce:c8:12:34:56"), vec!["192.168.1.6".to_string()]);
    let d = r.describe_device("a2:ce:c8:12:34:56");
    assert_eq!(d.name, None);
    assert_eq!(d.macs, vec!["a2:ce:c8:12:34:56".to_string()]);
    r.clear_learned_ips();
    assert!(r.ips_for_device("a2:ce:c8:12:34:56").is_empty());
}

fn asked(p: &Progress) -> Search {
    match p {
        Progress::Ask(s) => *s,
        Progress::Done(_) => panic!("a lookup is due"),
    }
}

#[test]
fn a_search_asks_the_resolver_first() {
    let mut r = registry();
    let p = start_search(&r, ip("192.168.1.5"), None, 0);
    let s = asked(&p);
    assert!(matches!(s.asked, Lookup::Ptr(_) | Lookup::Mdns(_)));
    let (done, _) = continue_search(&mut r, s, LookupAnswer::Name(Some("host.lan".to_string())), 0);
    match done {
        Progress::Done(name) => assert!(name.is_some()),
        Progress::Ask(_) => panic!("the name was found"),
    }
}
