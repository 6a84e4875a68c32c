use ferrite::api::proxy::{match_prev, redacted, restore_secrets, validate, Verdict};
use ferrite::api::wg_conf::{mask_wg_key, private_key_value, restore_wg_key, wg_public_key};
use ferrite::config::{Config, EgressConfig, ProxyConfig, RuleConfig};
use ferrite::error::FeriteError;

fn proxy(egresses: Vec<EgressConfig>, rules: Vec<RuleConfig>) -> ProxyConfig {
    let mut p = Config::with_data_dir("/data").proxy;
    p.enabled = true;
    p.egresses = egresses;
    p.rules = rules;
    p
}

fn egress(id: &str, kind: &str) -> EgressConfig {
    EgressConfig {
        id: id.to_string(),
        name: id.to_string(),
        enabled: true,
        kind: kind.to_string(),
        address: if kind == "socks5" { Some("127.0.0.1".to_string()) } else { None },
        port: if kind == "socks5" { Some(1080) } else { None },
        username: None,
        password: None,
        config: None,
        seg_position: None,
        buffer_kb: None,
        tx_buffer_kb: None,
    }
}

fn wg_egress(id: &str, config: Option<&str>) -> EgressConfig {
    let mut e = egress(id, "wireguard");
    e.config = config.map(str::to_string);
    e
}

fn rule(pattern: &str, egress: &str) -> RuleConfig {
    RuleConfig { pattern: pattern.to_string(), egress: egress.to_string(), fail_closed: true, clients: vec![] }
}

const KEY: &str = "BwcHBwcHBwcHBwcHBwcHBwcHBwcHBwcHBwcHBwcHBwc=";

fn sample_wg_conf() -> String {
    format!(
        "[Interface]\nPrivateKey = {KEY}\nAddress = 10.9.0.2/32\n[Peer]\nPublicKey = {KEY}\nEndpoint = 127.0.0.1:51820\n"
    )
}

fn verdict(c: &ProxyConfig) -> Verdict {
    validate(c, &vec![true; c.egresses.len()])
}

fn refusal(c: &ProxyConfig) -> String {
    match verdict(c) {
        Verdict::Invalid(FeriteError::Config(m)) => m,
        other => panic!("unexpected {other:?}"),
    }
}

#[test]
fn get_returns_disabled_default() {
    let shown = redacted(Config::with_data_dir("/data").proxy);
    assert!(!shown.enabled);
}

#[test]
fn put_rejects_rule_with_unknown_egress() {
    let m = refusal(&proxy(vec![], vec![rule("x.test", "ghost")]));
    assert_eq!(m, "rule 'x.test' references unknown egress 'ghost'");
}

#[test]
fn put_updates_live_config() {
    let live = Config::with_data_dir("/data").proxy;
    let new = proxy(vec![egress("work", "socks5")], vec![rule("*.example.com", "work")]);
    let mut new = restore_secrets(&live, new);
    assert!(matches!(verdict(&new), Verdict::Valid));
    new.normalize();
    assert_eq!(new.egresses.len(), 1);
    assert_eq!(new.rules.len(), 1);
    assert_eq!(new.egresses[0].id, "work");
}

#[test]
fn renamed_wireguard_egress_restores_key_by_public_key() {
    let conf = sample_wg_conf();
    let old = vec![wg_egress("vpn", Some(&conf))];
    let submitted = wg_egress("vpn-renamed", Some(&mask_wg_key(&conf)));

    let prev = match_prev(&old, &submitted, "vpn-renamed").expect("matched by PublicKey");
    assert_eq!(prev.id, "vpn");
    let restored = restore_wg_key(&mask_wg_key(&conf), prev.config.as_deref().unwrap());
    assert!(restored.contains("PrivateKey =") && !restored.contains("********"));
}

#[test]
fn wireguard_config_is_redacted_on_get_and_kept_when_blank() {
    let conf = sample_wg_conf();
    let live = proxy(vec![wg_egress("vpn", Some(&conf))], vec![]);

    let shown = redacted(proxy(vec![wg_egress("vpn", Some(&conf))], vec![]));
    let shown = shown.egresses[0].config.clone().unwrap();
    assert!(shown.contains("PrivateKey = ********"), "key must be masked: {shown}");
    assert!(!shown.contains(&format!("PrivateKey = {KEY}")), "raw key leaked: {shown}");
    assert!(shown.contains("Address = 10.9.0.2/32"), "non-secret lines must stay");

    let again = restore_secrets(&live, proxy(vec![wg_egress("vpn", Some(&shown))], vec![]));
    assert!(
        again.egresses[0].config.as_deref().unwrap_or("").contains(&format!("PrivateKey = {KEY}")),
        "real key must be restored when the mask is sent back"
    );

    let blank = restore_secrets(&live, proxy(vec![wg_egress("vpn", None)], vec![]));
    assert!(blank.egresses[0].config.as_deref().unwrap_or("").contains("PrivateKey"));
}

#[test]
fn passwords_are_not_shown_and_stay_when_blank() {
    let mut e = egress("work", "SOCKS5");
    e.address = Some("10.0.0.9".to_string());
    e.port = Some(1080);
    e.password = Some("pw".to_string());
    let live = proxy(vec![e.clone()], vec![]);
    let shown = redacted(proxy(vec![e.clone()], vec![]));
    assert_eq!(shown.egresses[0].password, None);
    let again = restore_secrets(&live, shown);
    assert_eq!(again.egresses[0].password.as_deref(), Some("pw"));
    let mut renamed = e.clone();
    renamed.id = "other".to_string();
    renamed.password = Some(String::new());
    let again = restore_secrets(&live, proxy(vec![renamed], vec![]));
    assert_eq!(again.egresses[0].password.as_deref(), Some("pw"));
    let mut fresh = e;
    fresh.password = Some("new".to_string());
    let again = restore_secrets(&live, proxy(vec![fresh], vec![]));
    assert_eq!(again.egresses[0].password.as_deref(), Some("new"));
}

#[test]
fn faults_are_named() {
    assert_eq!(refusal(&proxy(vec![egress("  ", "direct")], vec![])), "an egress is missing its id");
    assert_eq!(
        refusal(&proxy(vec![egress("a", "direct"), egress(" A ", "direct")], vec![])),
        "duplicate egress id ' A '"
    );
    let mut s = egress("s", "socks5");
    s.port = None;
    assert_eq!(refusal(&proxy(vec![s], vec![])), "socks5 egress 's' requires an address and port");
    assert_eq!(
        refusal(&proxy(vec![wg_egress("w", Some(" "))], vec![])),
        "wireguard egress 'w' requires a config (.conf text)"
    );
    assert_eq!(refusal(&proxy(vec![egress("x", " Magic ")], vec![])), "egress 'x': unknown kind 'magic'");
    assert_eq!(
        refusal(&proxy(vec![egress("a", "evasion")], vec![rule("  ", "a")])),
        "a rule is missing its pattern"
    );
    let c = proxy(vec![egress("a", "direct"), wg_egress("w", Some("junk"))], vec![]);
    assert!(matches!(validate(&c, &vec![true, false]), Verdict::InvalidConf(1)));
    assert!(matches!(validate(&c, &vec![false, true]), Verdict::Valid));
}

#[test]
fn keys_are_found_masked_and_restored() {
    let conf = "[Interface]\r\n  privatekey=abc=  \r\nAddress = 1\r\n[Peer]\nPublicKey = pub=\n";
    assert_eq!(private_key_value(conf).as_deref(), Some("abc="));
    assert_eq!(wg_public_key(conf).as_deref(), Some("pub="));
    assert_eq!(
        mask_wg_key(conf),
        "[Interface]\r\n  privatekey=********  \r\nAddress = 1\r\n[Peer]\nPublicKey = pub=\n"
    );
    assert_eq!(private_key_value(&restore_wg_key(&mask_wg_key(conf), conf)).as_deref(), Some("abc="));
    assert_eq!(restore_wg_key(&mask_wg_key(conf), conf), conf);
    let fresh = "PrivateKey = new";
    assert_eq!(restore_wg_key(fresh, conf), fresh);
    assert_eq!(private_key_value("Address = 1"), None);
    assert_eq!(restore_wg_key("PrivateKey = ********", "Address = 1"), "PrivateKey = ********");
}

#[test]
fn submitted_texts_without_the_mask_come_back_unchanged() {
    let stored = "[Interface]\nPrivateKey = xyz=\n";
    for fresh in ["[Interface]\nPrivateKey=abc=\n", "PrivateKey =  abc=  \r\n\r\n", "", "\n", "PrivateKey"] {
        assert_eq!(restore_wg_key(fresh, stored), fresh);
    }
    assert_eq!(
        restore_wg_key("[Interface]\nPrivateKey=\t********\n", stored),
        "[Interface]\nPrivateKey=\txyz=\n"
    );
}
