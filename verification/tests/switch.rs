use helix::charter::Charter;
use helix::switch::{ipv4_literal, is_loopback_host, DestClass, Switch, SwitchError};

#[test]
fn hearthside_allows_ollama_loopback() {
    let s = Switch::for_pack("hearthside").unwrap();
    s.check("http://127.0.0.1:11434/api/generate").unwrap();
    s.check("http://localhost:11434/api/tags").unwrap();
    assert_eq!(s.classify("http://127.0.0.1:11434").unwrap(), DestClass::LocalModel);
}

#[test]
fn hearthside_blocks_remote() {
    let s = Switch::for_pack("hearthside").unwrap();
    assert!(matches!(
        s.check("https://api.openai.com/v1/chat/completions"),
        Err(SwitchError::Denied(_))
    ));
    assert!(matches!(s.check("http://example.com/"), Err(SwitchError::Denied(_))));
    assert_eq!(s.classify("https://api.openai.com").unwrap(), DestClass::Blocked);
}

#[test]
fn workshop_still_blocks_unlisted_cloud() {
    let s = Switch::for_pack("workshop").unwrap();
    assert!(matches!(
        s.check("https://api.openai.com/v1/chat/completions"),
        Err(SwitchError::Denied(_))
    ));
    s.check("http://127.0.0.1:11434/api/tags").unwrap();
}

#[test]
fn non_http_scheme_denied() {
    let s = Switch::for_pack("hearthside").unwrap();
    assert!(matches!(s.check("ftp://127.0.0.1/"), Err(SwitchError::Denied(_))));
}

#[test]
fn scheme_denial_names_the_scheme() {
    let s = Switch::for_pack("hearthside").unwrap();
    match s.check("ftp://127.0.0.1/") {
        Err(SwitchError::Denied(m)) => assert_eq!(m, "scheme ftp not allowed (only http/https)"),
        other => panic!("unexpected {:?}", other),
    }
}

#[test]
fn blocked_host_message_names_pack_and_url() {
    let s = Switch::for_pack("desk").unwrap();
    match s.check("http://example.com/") {
        Err(SwitchError::Denied(m)) => {
            assert_eq!(m, "host not on allowlist for pack desk (url=http://example.com/)")
        }
        other => panic!("unexpected {:?}", other),
    }
}

#[test]
fn unparsable_url_is_invalid() {
    let s = Switch::for_pack("hearthside").unwrap();
    assert!(matches!(s.check("not a url"), Err(SwitchError::InvalidUrl(_))));
}

#[test]
fn uppercase_loopback_host_is_local() {
    let s = Switch::for_pack("hearthside").unwrap();
    assert_eq!(s.classify("http://LOCALHOST:11434/").unwrap(), DestClass::LocalModel);
    assert_eq!(s.classify("http://[::1]:11434/").unwrap(), DestClass::LocalModel);
    assert_eq!(s.classify("http://127.9.9.9/").unwrap(), DestClass::LocalModel);
}

#[test]
fn local_model_denied_when_charter_forbids() {
    let mut c = Charter::builtin("hearthside").unwrap();
    c.allow_local_model = false;
    let s = Switch::from_charter(&c);
    match s.check("http://127.0.0.1:11434/") {
        Err(SwitchError::Denied(m)) => assert_eq!(m, "local model not allowed by charter"),
        other => panic!("unexpected {:?}", other),
    }
}

#[test]
fn unknown_pack_has_no_switch() {
    assert!(Switch::for_pack("garage").is_err());
}

#[test]
fn summary_of_hearthside() {
    let s = Switch::for_pack("hearthside").unwrap();
    assert_eq!(s.pack(), "hearthside");
    assert_eq!(
        s.summary(),
        "pack=hearthside local_model=loopback-only cloud_model=denied network_adapters=denied allowed_hosts=(none)"
    );
}

#[test]
fn summary_of_workshop() {
    let s = Switch::for_pack("workshop").unwrap();
    assert_eq!(
        s.summary(),
        "pack=workshop local_model=loopback-only cloud_model=flag-on (no hosts seeded yet) network_adapters=flag-on (no hosts seeded yet) allowed_hosts=(none)"
    );
}

#[test]
fn loopback_hosts() {
    assert!(is_loopback_host("127.0.0.1"));
    assert!(is_loopback_host("localhost"));
    assert!(is_loopback_host("::1"));
    assert!(is_loopback_host("127.1.2.3"));
    assert!(!is_loopback_host("example.com"));
    assert!(!is_loopback_host("128.0.0.1"));
}

#[test]
fn classify_after_parsing() {
    let s = Switch::for_pack("hearthside").unwrap();
    assert_eq!(
        s.classify_parsed(Ok(("http".to_string(), Some("LocalHost".to_string())))).unwrap(),
        DestClass::LocalModel
    );
    assert_eq!(
        s.classify_parsed(Ok(("https".to_string(), Some("example.org".to_string())))).unwrap(),
        DestClass::Blocked
    );
    assert!(matches!(
        s.classify_parsed(Ok(("http".to_string(), None))),
        Err(SwitchError::Denied(ref m)) if m == "url has no host"
    ));
    assert!(matches!(
        s.classify_parsed(Err("relative URL without a base".to_string())),
        Err(SwitchError::InvalidUrl(ref m)) if m == "relative URL without a base"
    ));
}

#[test]
fn dns_name_starting_with_127_is_not_loopback() {
    assert!(!is_loopback_host("127.example.com"));
    assert!(!is_loopback_host("127.0.0.1.example.com"));
    assert!(!is_loopback_host("127.0.0.256"));
    assert!(!is_loopback_host("127.0.0"));
    assert!(is_loopback_host("127.255.0.9"));
    let s = Switch::for_pack("hearthside").unwrap();
    assert!(matches!(s.check("http://127.example.com/"), Err(SwitchError::Denied(_))));
    assert_eq!(s.classify("http://127.example.com/").unwrap(), DestClass::Blocked);
}

#[test]
fn ipv4_literal_shapes() {
    assert!(ipv4_literal("10.0.0.1"));
    assert!(ipv4_literal("255.255.255.255"));
    assert!(!ipv4_literal("256.0.0.1"));
    assert!(!ipv4_literal("1.2.3"));
    assert!(!ipv4_literal("1..2.3"));
    assert!(!ipv4_literal("a.b.c.d"));
    assert!(!ipv4_literal("1234.0.0.1"));
}
