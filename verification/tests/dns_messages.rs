use ferrite::blocklist::engine::Blocklist;
use ferrite::config::{AllowlistConfig, BlocklistConfig};
use ferrite::dns::cache::{DnsCache, MAX_TTL};
use ferrite::dns::handler::{
    answer_from_upstream, answer_locally, build_nxdomain, build_servfail, cache_ttl, cap_ttls, cname_blocked_target,
    filtering_enabled, is_log_ignored, make_entry, needs_client_mac, open_query, parse_rcode, patch_cached, patch_id,
    seed_query_counter, DropCounter, Intercept, OpenQuery, Opening, Outcome, QueryContext, QueryCounter, Upstream,
};
use ferrite::dns::server::{client_udp_payload, datagram, frame, framed_len, overload_reply, truncate_response};
use ferrite::dns::types::{question_end, DnsResponse, QueryStatus};
use ferrite::ip::{IpAddr, Ipv4};
use hickory_proto::op::{Edns, Message, MessageType, OpCode, Query, ResponseCode};
use hickory_proto::rr::rdata::{A, CNAME, SOA};
use hickory_proto::rr::{Name, RData, Record, RecordType};
use hickory_proto::serialize::binary::{BinDecodable, BinEncodable};
use std::str::FromStr;

const SECOND: u64 = 1_000_000_000;

fn name(value: &str) -> Name {
    Name::from_str(&format!("{}.", value.trim_end_matches('.'))).unwrap()
}

fn query(value: &str, record_type: RecordType) -> Message {
    query_with_id(0xCAFE, value, record_type)
}

fn query_with_id(id: u16, value: &str, record_type: RecordType) -> Message {
    let mut msg = Message::new(id, MessageType::Query, OpCode::Query);
    msg.metadata.recursion_desired = true;
    msg.add_query(Query::query(name(value), record_type));
    msg
}

fn raw(value: &str, record_type: RecordType) -> Vec<u8> {
    query(value, record_type).to_bytes().unwrap()
}

fn a_response(id: u16, query_name: &str, ip: A, ttl: u32) -> Vec<u8> {
    let query = query_with_id(id, query_name, RecordType::A);
    let mut resp = Message::response(query.metadata.id, OpCode::Query);
    resp.metadata.response_code = ResponseCode::NoError;
    resp.metadata.recursion_desired = true;
    resp.metadata.recursion_available = true;
    resp.add_queries(query.queries.iter().cloned());
    resp.add_answer(Record::from_rdata(name(query_name), ttl, RData::A(ip)));
    resp.to_bytes().unwrap()
}

fn blocklist() -> Blocklist {
    Blocklist::new(
        BlocklistConfig {
            enabled: true,
            decision_cache_size: 128,
            lists: vec![],
            wildcard_block: vec![],
            whitelist: vec![],
            client_bypass: vec![],
            profiles: vec![],
        },
        AllowlistConfig { domains: vec![], lists: vec![] },
    )
}

fn cname_response(query_name: &str, target: &str) -> Vec<u8> {
    let query = query(query_name, RecordType::A);
    let mut resp = Message::response(query.metadata.id, OpCode::Query);
    resp.metadata.response_code = ResponseCode::NoError;
    resp.add_queries(query.queries.iter().cloned());
    resp.add_answer(Record::from_rdata(
        name(query_name),
        60,
        RData::CNAME(CNAME(name(target))),
    ));
    resp.to_bytes().unwrap()
}

fn client() -> IpAddr {
    IpAddr::V4(Ipv4 { a: 192, b: 0, c: 2, d: 10 })
}

fn opened(bytes: &[u8]) -> OpenQuery {
    match open_query(bytes, client()) {
        Opening::Query(q) => q,
        other => panic!("unexpected {other:?}"),
    }
}

fn context(bytes: &[u8], blocklist: &Blocklist) -> QueryContext {
    let query = opened(bytes);
    let filtering = filtering_enabled(blocklist, &query.client_ip, None);
    QueryContext { query, filtering, log_ignored: false }
}

#[test]
fn log_ignore_wildcard_matches_suffix_without_allocating_separator() {
    let patterns = vec!["*.local".to_string()];

    assert!(is_log_ignored("printer.local", &patterns));
    assert!(is_log_ignored("local", &patterns));
    assert!(!is_log_ignored("notlocal", &patterns));
}

#[test]
fn nxdomain_response_echoes_query_context() {
    let bytes = build_nxdomain(&raw("blocked.test", RecordType::A));
    let msg = Message::from_bytes(&bytes).unwrap();

    assert_eq!(msg.metadata.id, 0xCAFE);
    assert_eq!(msg.metadata.response_code, ResponseCode::NXDomain);
    assert!(msg.metadata.authoritative);
    assert!(msg.metadata.recursion_desired);
    assert!(msg.metadata.recursion_available);
    assert_eq!(msg.queries.len(), 1);
    assert_eq!(msg.queries[0].name().to_utf8(), "blocked.test.");
}

#[test]
fn servfail_response_echoes_query_context() {
    let bytes = build_servfail(&raw("upstream.test", RecordType::AAAA));
    let msg = Message::from_bytes(&bytes).unwrap();

    assert_eq!(msg.metadata.id, 0xCAFE);
    assert_eq!(msg.metadata.response_code, ResponseCode::ServFail);
    assert!(msg.metadata.recursion_desired);
    assert!(msg.metadata.recursion_available);
    assert_eq!(msg.queries.len(), 1);
    assert_eq!(msg.queries[0].query_type(), RecordType::AAAA);
}

#[test]
fn patch_id_rewrites_wire_header_only() {
    let original = build_servfail(&raw("cached.test", RecordType::A));
    let patched = patch_id(&original, 0xBEEF);

    assert_eq!(Message::from_bytes(&patched).unwrap().metadata.id, 0xBEEF);
    assert_eq!(&patched[2..], &original[2..]);
}

#[test]
fn parse_rcode_reads_response_code_from_wire_bytes() {
    let bytes = build_servfail(&raw("broken.test", RecordType::A));

    assert_eq!(parse_rcode(&bytes), Some(2));
    assert_eq!(parse_rcode(b"not dns"), None);
}

#[test]
fn cache_ttl_uses_lowest_answer_ttl() {
    let query = query("ttl.test", RecordType::A);
    let mut resp = Message::response(query.metadata.id, OpCode::Query);
    resp.add_queries(query.queries.iter().cloned());
    resp.add_answer(Record::from_rdata(
        name("ttl.test"),
        300,
        RData::A(A::new(192, 0, 2, 1)),
    ));
    resp.add_answer(Record::from_rdata(
        name("ttl.test"),
        45,
        RData::A(A::new(192, 0, 2, 2)),
    ));

    assert_eq!(cache_ttl(&resp.to_bytes().unwrap()), Some(45));
}

#[test]
fn cache_ttl_skips_zero_answer_ttl() {
    let query = query("nocache.test", RecordType::A);
    let mut resp = Message::response(query.metadata.id, OpCode::Query);
    resp.add_queries(query.queries.iter().cloned());
    resp.add_answer(Record::from_rdata(
        name("nocache.test"),
        0,
        RData::A(A::new(192, 0, 2, 1)),
    ));

    assert_eq!(cache_ttl(&resp.to_bytes().unwrap()), None);
}

#[test]
fn cache_ttl_nodata_uses_soa_negative_ttl() {
    let query = query("host.test", RecordType::AAAA);
    let mut resp = Message::response(query.metadata.id, OpCode::Query);
    resp.add_queries(query.queries.iter().cloned());
    let soa = SOA::new(
        name("ns.test"),
        name("hostmaster.test"),
        1,
        3600,
        600,
        86400,
        30,
    );
    let soa_rr = Record::from_rdata(name("test"), 120, RData::SOA(soa));
    resp.authorities.push(soa_rr);

    assert_eq!(cache_ttl(&resp.to_bytes().unwrap()), Some(30));
}

#[test]
fn cache_ttl_nodata_without_soa_is_not_cached() {
    let query = query("host.test", RecordType::AAAA);
    let mut resp = Message::response(query.metadata.id, OpCode::Query);
    resp.add_queries(query.queries.iter().cloned());

    assert_eq!(cache_ttl(&resp.to_bytes().unwrap()), None);
}

#[test]
fn patch_cached_rewrites_authority_section_ttl() {
    let query = query("host.test", RecordType::AAAA);
    let mut resp = Message::response(query.metadata.id, OpCode::Query);
    resp.add_queries(query.queries.iter().cloned());
    let soa = SOA::new(name("ns.test"), name("hm.test"), 1, 3600, 600, 86400, 300);
    resp.authorities
        .push(Record::from_rdata(name("test"), 3600, RData::SOA(soa)));
    let bytes = resp.to_bytes().unwrap();

    let patched = patch_cached(&bytes, 0x4242, 42);
    let msg = Message::from_bytes(&patched).unwrap();

    assert_eq!(msg.metadata.id, 0x4242);
    assert_eq!(msg.authorities[0].ttl, 42);
}

#[test]
fn cap_ttls_caps_above_ceiling_and_leaves_below_untouched() {
    let query = query("host.test", RecordType::A);
    let mut resp = Message::response(query.metadata.id, OpCode::Query);
    resp.add_queries(query.queries.iter().cloned());
    resp.add_answer(Record::from_rdata(
        name("host.test"),
        3600,
        RData::A(A::new(1, 2, 3, 4)),
    ));
    let bytes = resp.to_bytes().unwrap();

    let capped = cap_ttls(bytes.clone(), 60);
    assert_eq!(Message::from_bytes(&capped).unwrap().answers[0].ttl, 60);

    assert_eq!(cap_ttls(bytes.clone(), 7200), bytes);
}

#[test]
fn emit_counts_dropped_stats_when_channel_full() {
    let mut drops = DropCounter::new();
    assert!(drops.drop_one());
    assert!(drops.drop_one());
    assert_eq!(drops.get(), 2);
}

#[test]
fn drops_are_warned_of_at_powers_of_two() {
    let mut drops = DropCounter::new();
    let warned: Vec<u64> = (0..70).filter(|_| drops.drop_one()).map(|i| i + 1).collect();
    assert_eq!(warned, vec![1, 2, 4, 8, 16, 32, 64]);
}

#[test]
fn cname_blocked_target_reports_blocked_cname_target() {
    let mut blocklist = blocklist();
    blocklist.add_blacklist("blocked.test").unwrap();

    assert_eq!(
        cname_blocked_target(
            &cname_response("cdn.example.test", "blocked.test"),
            "cdn.example.test",
            &mut blocklist,
        ),
        Some("blocked.test".to_string())
    );
}

#[test]
fn whitelisted_query_allows_blocked_cname_chain() {
    let mut blocklist = blocklist();
    blocklist.add_blacklist("blocked.test").unwrap();
    blocklist.add_whitelist("cdn.example.test").unwrap();

    assert_eq!(
        cname_blocked_target(
            &cname_response("cdn.example.test", "blocked.test"),
            "cdn.example.test",
            &mut blocklist,
        ),
        None
    );
}

#[test]
fn malformed_wire_query_returns_empty_response() {
    assert!(matches!(open_query(&[0xde, 0xad, 0xbe, 0xef], client()), Opening::Silent));
}

#[test]
fn unsupported_opcode_returns_servfail() {
    let mut request = query("status.test", RecordType::A);
    request.metadata.op_code = OpCode::Status;

    let response = match open_query(&request.to_bytes().unwrap(), client()) {
        Opening::Reply(r) => r,
        other => panic!("unexpected {other:?}"),
    };
    let msg = Message::from_bytes(&response).unwrap();

    assert_eq!(msg.metadata.response_code, ResponseCode::ServFail);
    assert_eq!(msg.queries[0].name().to_utf8(), "status.test.");
}

fn local(bytes: &[u8], custom: Option<DnsResponse>, blocklist: &mut Blocklist, cache: &mut DnsCache) -> Option<Outcome> {
    let cx = context(bytes, blocklist);
    answer_locally(bytes, &cx, custom, None, blocklist, cache, 0)
}

#[test]
fn blocklisted_domain_returns_nxdomain_and_records_blocked_query() {
    let mut blocklist = blocklist();
    let mut cache = DnsCache::new(8, 60, 3600);
    blocklist.add_blacklist("ads.test").unwrap();

    let request = raw("ads.test", RecordType::A);
    let out = local(&request, None, &mut blocklist, &mut cache).unwrap();
    let msg = Message::from_bytes(&out.reply).unwrap();
    let mut counter = QueryCounter::new();
    let entry = make_entry(&mut counter, 1234, &opened(&request), out.log.unwrap(), 0);

    assert_eq!(msg.metadata.response_code, ResponseCode::NXDomain);
    assert_eq!(entry.domain, "ads.test");
    assert_eq!(entry.status, QueryStatus::Blocked);
    assert_eq!(entry.rcode, 3);
    assert_eq!(entry.id, 1);
    assert_eq!(entry.client_ip, "192.0.2.10");
    assert_eq!(entry.timestamp, 1234);
}

#[test]
fn blocklist_check_precedes_cached_response_for_filtered_clients() {
    let mut blocklist = blocklist();
    let mut cache = DnsCache::new(8, 60, 3600);
    blocklist.add_blacklist("ads.test").unwrap();
    let bytes = a_response(0x1111, "ads.test", A::new(192, 0, 2, 9), 120);
    cache.insert_at("ads.test", 1, DnsResponse { bytes, ttl: 120 }, 0);

    let out = local(&raw("ads.test", RecordType::A), None, &mut blocklist, &mut cache).unwrap();
    let msg = Message::from_bytes(&out.reply).unwrap();

    assert_eq!(msg.metadata.response_code, ResponseCode::NXDomain);
    assert_eq!(out.log.unwrap().status, QueryStatus::Blocked);
}

#[test]
fn client_bypass_allows_cached_blacklisted_domain() {
    let mut blocklist = blocklist();
    let mut cache = DnsCache::new(8, 60, 3600);
    blocklist.add_blacklist("ads.test").unwrap();
    blocklist.set_client_bypass(&vec!["192.0.2.10".to_string()]);
    let bytes = a_response(0x1111, "ads.test", A::new(192, 0, 2, 9), 120);
    cache.insert_at("ads.test", 1, DnsResponse { bytes, ttl: 120 }, 0);

    let request = query_with_id(0x2222, "ads.test", RecordType::A).to_bytes().unwrap();
    let out = local(&request, None, &mut blocklist, &mut cache).unwrap();
    let msg = Message::from_bytes(&out.reply).unwrap();

    assert_eq!(msg.metadata.response_code, ResponseCode::NoError);
    assert_eq!(msg.metadata.id, 0x2222);
    assert_eq!(out.log.unwrap().status, QueryStatus::Cached);
    assert!(needs_client_mac(&blocklist, false));
}

#[test]
fn custom_record_beats_blocklist_and_records_allowed_query() {
    let mut blocklist = blocklist();
    let mut cache = DnsCache::new(8, 60, 3600);
    blocklist.add_blacklist("panel.test").unwrap();
    let bytes = a_response(0xCAFE, "panel.test", A::new(192, 0, 2, 55), 120);

    let request = raw("panel.test", RecordType::A);
    let out = local(&request, Some(DnsResponse { bytes, ttl: 120 }), &mut blocklist, &mut cache).unwrap();
    let msg = Message::from_bytes(&out.reply).unwrap();
    let line = out.log.unwrap();

    assert_eq!(msg.metadata.response_code, ResponseCode::NoError);
    assert_eq!(msg.answers[0].data, RData::A(A::new(192, 0, 2, 55)));
    assert_eq!(line.status, QueryStatus::Allowed);
    assert_eq!(line.upstream.as_deref(), Some("custom"));
}

#[test]
fn cache_hit_patches_response_id_and_records_cached_query() {
    let mut blocklist = blocklist();
    let mut cache = DnsCache::new(8, 60, 3600);
    let cached_bytes = a_response(0x1111, "cache.test", A::new(192, 0, 2, 9), 120);
    cache.insert_at("cache.test", 1, DnsResponse { bytes: cached_bytes, ttl: 120 }, 0);

    let request = query_with_id(0x2222, "cache.test", RecordType::A).to_bytes().unwrap();
    let out = local(&request, None, &mut blocklist, &mut cache).unwrap();
    let msg = Message::from_bytes(&out.reply).unwrap();
    let entry = make_entry(&mut QueryCounter::new(), 1234, &opened(&request), out.log.unwrap(), 0);

    assert_eq!(msg.metadata.id, 0x2222);
    assert_eq!(msg.answers[0].data, RData::A(A::new(192, 0, 2, 9)));
    assert!(msg.answers[0].ttl <= 120);
    assert_eq!(entry.status, QueryStatus::Cached);
    assert_eq!(entry.domain, "cache.test");
}

#[test]
fn redirected_names_are_answered_before_the_block_rules() {
    let mut blocklist = blocklist();
    let mut cache = DnsCache::new(8, 60, 3600);
    blocklist.add_blacklist("video.test").unwrap();
    let request = raw("video.test", RecordType::A);
    let cx = context(&request, &blocklist);
    let bytes = a_response(0xCAFE, "video.test", A::new(192, 0, 2, 77), 60);
    let intercept = Intercept { response: DnsResponse { bytes, ttl: 60 }, egress_id: "vpn".to_string() };
    let out = answer_locally(&request, &cx, None, Some(intercept), &mut blocklist, &mut cache, 0).unwrap();
    let msg = Message::from_bytes(&out.reply).unwrap();
    assert_eq!(msg.answers[0].data, RData::A(A::new(192, 0, 2, 77)));
    assert!(out.log.unwrap().status != QueryStatus::Blocked);
}

#[test]
fn clean_answers_of_a_resolver_are_cached() {
    let mut blocklist = blocklist();
    let mut cache = DnsCache::new(8, 60, 3600);
    let request = raw("new.test", RecordType::A);
    let cx = context(&request, &blocklist);
    assert!(answer_locally(&request, &cx, None, None, &mut blocklist, &mut cache, 0).is_none());
    let bytes = a_response(0xCAFE, "new.test", A::new(192, 0, 2, 3), 300);
    let up = Upstream { bytes: bytes.clone(), label: "9.9.9.9".to_string() };
    let out = answer_from_upstream(&request, &cx, Some(up), &mut blocklist, &mut cache, 0);
    assert_eq!(Message::from_bytes(&out.reply).unwrap().answers[0].data, RData::A(A::new(192, 0, 2, 3)));
    let line = out.log.unwrap();
    assert_eq!(line.status, QueryStatus::Upstream);
    assert_eq!(line.upstream.as_deref(), Some("9.9.9.9"));
    assert_eq!(cache.len(), 1);
    assert!(cache.get_at("new.test", 1, 299 * SECOND).is_some());
    assert!(cache.get_at("new.test", 1, 301 * SECOND).is_none());
}

#[test]
fn answers_that_lead_to_blocked_names_are_refused() {
    let mut blocklist = blocklist();
    let mut cache = DnsCache::new(8, 60, 3600);
    blocklist.add_blacklist("blocked.test").unwrap();
    let request = raw("cdn.example.test", RecordType::A);
    let cx = context(&request, &blocklist);
    let up = Upstream { bytes: cname_response("cdn.example.test", "blocked.test"), label: "r".to_string() };
    let out = answer_from_upstream(&request, &cx, Some(up), &mut blocklist, &mut cache, 0);
    let msg = Message::from_bytes(&out.reply).unwrap();
    assert_eq!(msg.metadata.response_code, ResponseCode::NXDomain);
    assert_eq!(out.log.unwrap().status, QueryStatus::Blocked);
    assert_eq!(cache.len(), 0);
}

#[test]
fn a_resolver_that_fails_gives_servfail() {
    let mut blocklist = blocklist();
    let mut cache = DnsCache::new(8, 60, 3600);
    let request = raw("down.test", RecordType::A);
    let cx = context(&request, &blocklist);
    let out = answer_from_upstream(&request, &cx, None, &mut blocklist, &mut cache, 0);
    let msg = Message::from_bytes(&out.reply).unwrap();
    assert_eq!(msg.metadata.response_code, ResponseCode::ServFail);
}

#[test]
fn query_numbers_go_on_after_a_restart() {
    let mut counter = QueryCounter::new();
    seed_query_counter(&mut counter, 41);
    assert_eq!(counter.take(), 42);
    seed_query_counter(&mut counter, 7);
    assert_eq!(counter.take(), 43);
}

fn response(ttl: u32) -> DnsResponse {
    DnsResponse { bytes: b"response".to_vec(), ttl }
}

#[test]
fn hot_ttl_bounds_apply_to_future_inserts() {
    let mut cache = DnsCache::new(8, 60, 300);
    cache.set_ttl_bounds(120, 120);
    cache.insert("example.com", 1, response(30));

    let now = cache.now();
    let expires_at = cache.snapshot()[0].2;
    let remaining = expires_at.saturating_sub(now);
    assert!(remaining / SECOND >= 118);
}

#[test]
fn ttl_bounds_are_normalized() {
    let cache = DnsCache::new(8, 7200, 30);
    assert_eq!(cache.min_ttl_secs(), MAX_TTL);
}

#[test]
fn evict_domain_removes_all_qtypes_for_that_name_only() {
    let mut cache = DnsCache::new(16, 60, 300);
    cache.insert("router.lan", 1, response(120));
    cache.insert("router.lan", 28, response(120));
    cache.insert("router.lan", 255, response(120));
    cache.insert("other.lan", 1, response(120));

    cache.evict_domain("router.lan");

    assert!(cache.get("router.lan", 1).is_none());
    assert!(cache.get("router.lan", 28).is_none());
    assert!(cache.get("router.lan", 255).is_none(), "ANY must be evicted too");
    assert!(cache.get("other.lan", 1).is_some());
}

#[test]
fn cached_responses_expire_and_make_room() {
    let mut cache = DnsCache::new(2, 60, 300);
    cache.insert_at("A.test", 1, response(120), 0);
    assert_eq!(cache.get_at("a.TEST", 1, 0).unwrap().bytes, b"response".to_vec());
    assert_eq!(cache.get_with_remaining_at("a.test", 1, 20 * SECOND).unwrap().1, 100);
    assert!(cache.get_at("a.test", 28, 0).is_none());
    cache.insert_at("b.test", 1, response(120), 0);
    cache.insert_at("c.test", 1, response(120), 0);
    assert_eq!(cache.len(), 2);
    assert!(cache.get_at("a.test", 1, 0).is_none());
    cache.evict_expired_at(200 * SECOND);
    assert!(cache.is_empty());
}

#[test]
fn saved_responses_are_restored_with_their_remaining_life() {
    let mut cache = DnsCache::new(8, 60, 3600);
    let key = DnsCache::cache_key("Saved.test", 1);
    let saved = vec![
        (key, vec![1, 2, 3], 300, 1_100),
        (DnsCache::cache_key("gone.test", 1), vec![4], 300, 999),
    ];
    cache.restore(&saved, 0, 1_000);
    assert_eq!(cache.len(), 1);
    let (r, left) = cache.get_with_remaining_at("saved.test", 1, 0).unwrap();
    assert_eq!(r.bytes, vec![1, 2, 3]);
    assert_eq!(left, 100);
}

fn query_no_edns() -> Vec<u8> {
    let mut m = vec![0x12, 0x34, 0x01, 0x00, 0x00, 0x01, 0, 0, 0, 0, 0, 0];
    for label in ["example", "com"] {
        m.push(label.len() as u8);
        m.extend_from_slice(label.as_bytes());
    }
    m.push(0);
    m.extend_from_slice(&[0x00, 0x01, 0x00, 0x01]);
    m
}

#[test]
fn no_edns_query_caps_at_512() {
    assert_eq!(client_udp_payload(&query_no_edns()), 512);
}

#[test]
fn unparseable_query_caps_at_512() {
    assert_eq!(client_udp_payload(b"\x00\x01"), 512);
}

#[test]
fn truncate_sets_tc_and_keeps_question() {
    let mut resp = query_no_edns();
    resp[2] |= 0x80;
    let q_end = question_end(&resp).unwrap();
    resp.truncate(q_end);
    resp.extend_from_slice(&[0xFF; 200]);

    let out = truncate_response(&resp);
    assert_eq!(out[2] & 0b0000_0010, 0b0000_0010, "TC bit set");
    assert_eq!(&out[6..12], &[0, 0, 0, 0, 0, 0], "AN/NS/AR counts cleared");
    assert_eq!(&out[12..], &resp[12..q_end]);
}

#[test]
fn truncated_messages_keep_every_question_they_announce() {
    let mut resp = query_no_edns();
    let one = resp[12..].to_vec();
    resp[5] = 2;
    resp.extend_from_slice(&one);
    let end = resp.len();
    resp.extend_from_slice(&[0xFF; 200]);
    let out = truncate_response(&resp);
    assert_eq!(&out[4..6], &[0, 2]);
    assert_eq!(&out[12..], &resp[12..end]);

    // A question that is cut off leaves a header without questions.
    let out = truncate_response(&resp[..end - 1]);
    assert_eq!(out.len(), 12);
    assert_eq!(&out[4..6], &[0, 0]);
    assert_eq!(out[2] & 2, 2);
}

#[test]
fn larger_datagrams_go_to_clients_that_ask_for_them() {
    let mut msg = query("big.test", RecordType::A);
    let mut edns = Edns::new();
    edns.set_max_payload(1232);
    msg.set_edns(edns);
    assert_eq!(client_udp_payload(&msg.to_bytes().unwrap()), 1232);

    let mut resp = query_no_edns();
    resp.extend_from_slice(&[0xFF; 600]);
    assert_eq!(datagram(resp.clone(), 1232), resp);
    assert_eq!(datagram(resp.clone(), 512), truncate_response(&resp));
}

#[test]
fn streams_announce_the_length_of_each_message() {
    let body = vec![7u8; 300];
    let framed = frame(&body);
    assert_eq!(framed.len(), 302);
    assert_eq!(framed_len(framed[0], framed[1]), Some(300));
    assert_eq!(&framed[2..], &body[..]);
    assert_eq!(framed_len(0, 0), None);
}

#[test]
fn overloaded_servers_say_so() {
    let reply = overload_reply(&raw("busy.test", RecordType::A)).unwrap();
    let msg = Message::from_bytes(&reply).unwrap();
    assert_eq!(msg.metadata.id, 0xCAFE);
    assert_eq!(msg.metadata.response_code, ResponseCode::ServFail);
}
