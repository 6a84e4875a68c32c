use ferrite::api::cert::{fmt_cert_ip, show_cert, show_fingerprint, show_names, CertName};
use ferrite::api::metrics::{
    content_type, escape_label, get_metrics, metric_families, render, EgressSample, MetricsSnapshot, ProbeSample, RuleHits,
};
use ferrite::api::tools::{
    answer_result, check_lookup, check_whois, chosen_egress, dnssec_query, lookup_name, parse_referral, parse_rtype,
    parse_trace, question_result, read_answer, resolve_query, signature_count, unknown_egress, validate_host, whois_answer,
    whois_request, NameLookup, ResolveParams, WhoisParams, DNSSEC_PAYLOAD,
};
use ferrite::dns::message::QuestionError;
use ferrite::error::FeriteError;
use hickory_proto::op::{Message, OpCode};
use hickory_proto::rr::rdata::A;
use hickory_proto::rr::{Name, RData, Record, RecordType};
use hickory_proto::serialize::binary::{BinDecodable, BinEncodable};

fn config(e: FeriteError) -> String {
    match e {
        FeriteError::Config(m) => m,
        other => panic!("unexpected {other:?}"),
    }
}

#[test]
fn parse_trace_extracts_exit_ip_and_loc() {
    let raw = "HTTP/1.1 200 OK\r\nServer: cloudflare\r\nContent-Type: text/plain\r\n\r\n\
               fl=123abc\r\nh=cloudflare.com\r\nip=203.0.113.7\r\nts=1.2\r\n\
               colo=AMS\r\nloc=NL\r\ntls=TLSv1.3\r\n";
    let m = parse_trace(raw);
    assert_eq!(m.get("ip").map(String::as_str), Some("203.0.113.7"));
    assert_eq!(m.get("loc").map(String::as_str), Some("NL"));
    assert_eq!(m.get("colo").map(String::as_str), Some("AMS"));
    assert_eq!(m.get("tls").map(String::as_str), Some("TLSv1.3"));
}

#[test]
fn parse_trace_without_header_split_still_reads_body() {
    let m = parse_trace("ip=198.51.100.9\nloc=DE");
    assert_eq!(m.get("ip").map(String::as_str), Some("198.51.100.9"));
    assert_eq!(m.get("loc").map(String::as_str), Some("DE"));
}

#[test]
fn later_trace_lines_count_and_later_parts_do_not() {
    let m = parse_trace("h\r\n\r\na = 1 \nb=x=y\na=2\nnothing\r\n\r\na=3");
    assert_eq!(m.get("a").map(String::as_str), Some("2"));
    assert_eq!(m.get("b").map(String::as_str), Some("x=y"));
    assert_eq!(m.get("nothing"), None);
    assert_eq!(m.len(), 2);
}

#[test]
fn fmt_cert_ip_handles_v4_v6_and_garbage() {
    assert_eq!(fmt_cert_ip(&[192, 0, 2, 1]), "192.0.2.1");
    assert_eq!(
        fmt_cert_ip(&[0x20, 0x01, 0xd, 0xb8, 0, 0, 0, 0, 0, 0, 0, 0, 0, 0, 0, 1]),
        "2001:db8::1"
    );
    assert_eq!(fmt_cert_ip(&[0xde, 0xad]), "dead");
}

#[test]
fn validate_host_rejects_whitespace_and_empty() {
    assert!(validate_host("example.com").is_ok());
    assert!(validate_host("").is_err());
    assert!(validate_host("a b").is_err());
    assert!(validate_host("a\nb").is_err());
}

#[test]
fn hosts_and_names_have_a_greatest_length() {
    let long = "a".repeat(253);
    assert!(validate_host(&long).is_ok());
    assert_eq!(
        config(validate_host(&format!("{long}a")).unwrap_err()),
        "invalid host (single token, no whitespace)"
    );
    assert!(validate_host("a\u{7f}b").is_err());
    assert!(validate_host("a\u{2003}b").is_err());
}

fn params(name: &str, rtype: Option<&str>) -> ResolveParams {
    ResolveParams { name: name.to_string(), rtype: rtype.map(|s| s.to_string()) }
}

#[test]
fn lookups_are_checked() {
    let l = check_lookup(&params(" example.com ", None)).unwrap();
    assert_eq!((l.name.as_str(), l.rtype.as_str(), l.qtype), ("example.com", "A", 1));
    assert_eq!(check_lookup(&params("x", Some("aaaa"))).unwrap().qtype, 28);
    assert_eq!(config(check_lookup(&params("  ", None)).unwrap_err()), "name is empty or too long");
    assert_eq!(
        config(check_lookup(&params(&"\u{e4}".repeat(127), None)).unwrap_err()),
        "name is empty or too long"
    );
    assert_eq!(
        config(check_lookup(&params("x", Some("bogus"))).unwrap_err()),
        "unsupported record type 'BOGUS'"
    );
    let all = ["A", "AAAA", "CNAME", "MX", "TXT", "NS", "SOA", "PTR", "SRV", "CAA"];
    let numbers: Vec<Option<u16>> = all.iter().map(|t| parse_rtype(t)).collect();
    let expected: Vec<Option<u16>> =
        [1, 28, 5, 15, 16, 2, 6, 12, 33, 257].iter().map(|n| Some(*n)).collect();
    assert_eq!(numbers, expected);
    assert_eq!(lookup_name("1.2.3.4", 12), "4.3.2.1.in-addr.arpa");
    assert_eq!(lookup_name("host", 12), "host");
    assert_eq!(lookup_name("1.2.3.4", 1), "1.2.3.4");
}

#[test]
fn lookup_queries_are_encoded() {
    let l = NameLookup { name: "example.com".to_string(), rtype: "MX".to_string(), qtype: 15 };
    let m = Message::from_bytes(&resolve_query(&l).unwrap()).unwrap();
    assert!(m.metadata.recursion_desired);
    assert_eq!(m.queries[0].query_type(), RecordType::MX);
    assert!(m.queries[0].name().to_utf8().starts_with("example.com"));
    assert!(m.edns.is_none());
    let m = Message::from_bytes(&dnssec_query(&l).unwrap()).unwrap();
    let edns = m.edns.unwrap();
    assert_eq!(edns.max_payload(), DNSSEC_PAYLOAD);
    assert!(edns.flags().dnssec_ok);
    let l = NameLookup { name: "a".repeat(70), rtype: "A".to_string(), qtype: 1 };
    assert!(config(resolve_query(&l).unwrap_err()).starts_with("invalid name 'aaaa"));
    assert_eq!(
        config(question_result("n", Err(QuestionError::Name("why".to_string()))).unwrap_err()),
        "invalid name 'n': why"
    );
    match question_result("n", Err(QuestionError::Encode("why".to_string()))) {
        Err(FeriteError::Dns(m)) => assert_eq!(m, "encode query: why"),
        other => panic!("unexpected {other:?}"),
    }
}

#[test]
fn answers_are_shown() {
    let mut resp = Message::response(1, OpCode::Query);
    resp.metadata.authentic_data = true;
    let name = Name::from_ascii("host.test.").unwrap();
    resp.add_answer(Record::from_rdata(name, 60, RData::A(A::new(1, 2, 3, 4))));
    let shown = read_answer(&resp.to_bytes().unwrap()).unwrap();
    assert_eq!(shown.response_code, "NoError");
    assert!(shown.authenticated);
    assert_eq!(shown.answers.len(), 1);
    assert_eq!(shown.answers[0].name, "host.test.");
    assert_eq!(shown.answers[0].rtype, "A");
    assert_eq!(shown.answers[0].ttl, 60);
    assert_eq!(shown.answers[0].data, "1.2.3.4");
    assert_eq!(shown.types, vec![1]);
    assert_eq!(signature_count(&shown), 0);
    let mut signed = shown;
    signed.types = vec![1, 46, 2, 46];
    assert_eq!(signature_count(&signed), 2);
    match read_answer(b"junk") {
        Err(FeriteError::Dns(m)) => assert!(m.starts_with("decode response: ")),
        other => panic!("unexpected {other:?}"),
    }
    match answer_result(Err("why".to_string())) {
        Err(FeriteError::Dns(m)) => assert_eq!(m, "decode response: why"),
        other => panic!("unexpected {other:?}"),
    }
}

#[test]
fn whois_goes_to_the_server_referred_to() {
    let q = |s: &str| check_whois(&WhoisParams { query: s.to_string() });
    assert_eq!(q(" example.com ").unwrap(), "example.com");
    assert_eq!(config(q("a b").unwrap_err()), "invalid whois query (single token, no whitespace)");
    assert!(q("").is_err());
    assert!(q(&"a".repeat(255)).is_ok());
    assert!(q(&"a".repeat(256)).is_err());
    assert_eq!(whois_request("x"), "x\r\n");

    let iana = "% IANA\r\n\r\nrefer:   \nWHOIS: Whois.Verisign-GRS.com\nrefer: other\n";
    assert_eq!(parse_referral(iana).as_deref(), Some("whois.verisign-grs.com"));
    assert_eq!(parse_referral("nothing here"), None);
    let some = |s: &str| Some(s.to_string());
    assert_eq!(
        whois_answer("first".to_string(), some("srv"), some("text")),
        ("srv".to_string(), "text".to_string())
    );
    assert_eq!(
        whois_answer("first".to_string(), some("srv"), None),
        ("whois.iana.org".to_string(), "first".to_string())
    );
    assert_eq!(whois_answer("first".to_string(), None, None).0, "whois.iana.org");
    assert_eq!(chosen_egress(&some("  vpn ")).as_deref(), Some("vpn"));
    assert_eq!(chosen_egress(&some("  ")), None);
    assert_eq!(chosen_egress(&None), None);
    assert_eq!(config(unknown_egress("vpn")), "unknown egress 'vpn'");
}

fn tlv(tag: u8, parts: &[Vec<u8>]) -> Vec<u8> {
    let body: Vec<u8> = parts.iter().flat_map(|p| p.iter().copied()).collect();
    let mut out = vec![tag];
    if body.len() < 128 {
        out.push(body.len() as u8);
    } else {
        out.extend_from_slice(&[0x82, (body.len() / 256) as u8, (body.len() % 256) as u8]);
    }
    out.extend(body);
    out
}

fn common_name(cn: &str) -> Vec<u8> {
    let attribute = tlv(0x30, &[vec![0x06, 3, 0x55, 0x04, 0x03], tlv(0x0c, &[cn.as_bytes().to_vec()])]);
    tlv(0x30, &[tlv(0x31, &[attribute])])
}

fn certificate() -> Vec<u8> {
    let alg = tlv(0x30, &[vec![0x06, 8, 0x2a, 0x86, 0x48, 0xce, 0x3d, 0x04, 0x03, 0x02]]);
    let validity = tlv(
        0x30,
        &[tlv(0x17, &[b"240101000000Z".to_vec()]), tlv(0x17, &[b"250101000000Z".to_vec()])],
    );
    let key_alg = tlv(
        0x30,
        &[
            vec![0x06, 7, 0x2a, 0x86, 0x48, 0xce, 0x3d, 0x02, 0x01],
            vec![0x06, 8, 0x2a, 0x86, 0x48, 0xce, 0x3d, 0x03, 0x01, 0x07],
        ],
    );
    let spki = tlv(0x30, &[key_alg, tlv(0x03, &[vec![0, 4, 1, 2]])]);
    let names = tlv(
        0x30,
        &[
            tlv(0x82, &[b"example.test".to_vec()]),
            tlv(0x87, &[vec![192, 0, 2, 1]]),
            tlv(0x81, &[b"a@example.test".to_vec()]),
            tlv(0x86, &[b"https://example.test".to_vec()]),
        ],
    );
    let san = tlv(0x30, &[vec![0x06, 3, 0x55, 0x1d, 0x11], tlv(0x04, &[names])]);
    let tbs = tlv(
        0x30,
        &[
            tlv(0xa0, &[vec![0x02, 1, 2]]),
            vec![0x02, 2, 1, 2],
            alg.clone(),
            common_name("Test CA"),
            validity,
            common_name("example.test"),
            spki,
            tlv(0xa3, &[tlv(0x30, &[san])]),
        ],
    );
    tlv(0x30, &[tbs, alg, tlv(0x03, &[vec![0, 1]])])
}

#[test]
fn certificates_are_shown() {
    let der = certificate();
    let info = show_cert(&der, true);
    assert!(info.is_leaf);
    let fields = info.fields.unwrap();
    assert_eq!(fields.subject, "CN=example.test");
    assert_eq!(fields.issuer, "CN=Test CA");
    assert_eq!(fields.not_before_unix, 1_704_067_200);
    assert_eq!(fields.not_after_unix, 1_735_689_600);
    assert!(fields.not_before.contains("2024"));
    assert_eq!(fields.serial, "01:02");
    assert_eq!(fields.sig_alg, "1.2.840.10045.4.3.2");
    assert_eq!(
        info.sans,
        vec!["example.test", "IP:192.0.2.1", "email:a@example.test", "uri:https://example.test"]
    );
}

#[test]
fn unreadable_certificates_still_have_a_fingerprint() {
    let info = show_cert(b"", false);
    assert!(info.fields.is_err() && info.sans.is_empty() && !info.is_leaf);
    assert_eq!(
        info.sha256,
        "e3:b0:c4:42:98:fc:1c:14:9a:fb:f4:c8:99:6f:b9:24:27:ae:41:e4:64:9b:93:4c:a4:95:99:1b:78:52:b8:55"
    );
    assert_eq!(show_fingerprint(&[]), "");
    assert_eq!(show_fingerprint(&[0x0a]), "0a");
    let names = Some(vec![CertName::Other("raw".to_string()), CertName::Ip(vec![1])]);
    assert_eq!(show_names(&names), vec!["raw", "IP:01"]);
    assert!(show_names(&None).is_empty());
}

#[test]
fn label_values_are_escaped() {
    assert_eq!(escape_label(r#"a"b\c"#), r#"a\"b\\c"#);
    assert_eq!(escape_label("x\ny"), "x\\ny");
}

fn snapshot() -> MetricsSnapshot {
    MetricsSnapshot {
        version: "1.0".to_string(),
        blocked: 3,
        allowed: 1,
        cached: 2,
        upstream: 4,
        routed: 0,
        dropped: 0,
        cache_entries: 9,
        cache_bytes: 90,
        blocklist_domains: 100,
        heap_live: 5,
        heap_peak: 6,
        open_fds: None,
        resident: Some((10, 8)),
        proxy_splices: 0,
        wg_connections: 0,
        egresses: vec![EgressSample {
            id: "vpn".to_string(),
            up: true,
            down_secs: 0,
            handshake_age: None,
            probe: Some(ProbeSample { ok: true, rtt_ms: Some(12) }),
            active: 0,
            total_conns: 1,
            bytes_up: 0,
            bytes_down: 0,
            connect_fails: 0,
            fail_closed_drops: 0,
        }],
        rule_hits: vec![RuleHits { pattern: "*.example.com".to_string(), egress: "vpn".to_string(), hits: 1 }],
    }
}

#[test]
fn metrics_expose_dns_and_egress_counters() {
    assert!(content_type().starts_with("text/plain; version=0.0.4"));
    let body = get_metrics(&snapshot());
    assert_eq!(body, render(&metric_families(&snapshot())));

    for expected in [
        "# TYPE ferrite_dns_queries_total counter",
        "ferrite_dns_queries_total{status=\"blocked\"} ",
        "ferrite_dns_queries_total{status=\"routed\"} ",
        "ferrite_egress_up{egress=\"vpn\"} 1",
        "ferrite_egress_connections_total{egress=\"vpn\"} 1",
        "ferrite_egress_bytes_total{egress=\"vpn\",direction=\"down\"} 0",
        "ferrite_rule_hits_total{pattern=\"*.example.com\",egress=\"vpn\"} 1",
        "ferrite_egress_down_seconds{egress=\"vpn\"} 0",
    ] {
        assert!(body.contains(expected), "missing `{expected}` in:\n{body}");
    }
    assert!(!body.contains("www.example.com"), "domain label leaked");

    let mut current = "";
    for line in body.lines() {
        if let Some(rest) = line.strip_prefix("# TYPE ") {
            current = rest.split(' ').next().unwrap();
        } else if !line.starts_with('#') && !line.is_empty() {
            let name = line.split(['{', ' ']).next().unwrap();
            assert_eq!(name, current, "sample outside its family block: {line}");
        }
    }
}
