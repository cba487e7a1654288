use helix::cap::{
    attenuate_rights, canonical_payload, capped_expiry, check_expiry, check_rights,
    constant_time_eq, issue_rights, issue_token, right_set, rights_for_charter, validate_right,
    verify_token, CapAuthority, CapError, CapToken, CLOUD_MODEL, LOCAL_MODEL, NETWORK, PLOT_READ,
    PLOT_WRITE, SHELL,
};

fn auth() -> CapAuthority {
    CapAuthority::from_bytes([7u8; 32])
}

fn clock() -> ((i64, u32), String, String) {
    let now = chrono::Utc::now();
    let id = format!("t-{}", now.format("%Y%m%dT%H%M%S%.3fZ"));
    ((now.timestamp(), now.timestamp_subsec_nanos()), id, now.to_rfc3339())
}

fn in_secs(secs: i64) -> String {
    (chrono::Utc::now() + chrono::Duration::seconds(secs)).to_rfc3339()
}

fn strings(items: &[&str]) -> Vec<String> {
    items.iter().map(|s| s.to_string()).collect()
}

fn token(rights: Vec<String>, mac: &str, expires_at: Option<&str>) -> CapToken {
    CapToken {
        id: "t-20240101T000000.000Z".to_string(),
        parent: None,
        issued_at: "2024-01-01T00:00:00+00:00".to_string(),
        expires_at: expires_at.map(|s| s.to_string()),
        rights,
        mac: mac.to_string(),
    }
}

// 2024-01-01T00:00:00Z
const NEW_YEAR: i64 = 1_704_067_200;

#[test]
fn issue_and_verify() {
    let a = auth();
    let rights = strings(&[PLOT_READ, LOCAL_MODEL]);
    let (now, id, at) = clock();
    let t = a.issue(&rights, id, at, Some(in_secs(3600))).unwrap();
    a.verify(&t, now).unwrap();
    assert!(a.allows(&t, PLOT_READ, now));
    assert!(!a.allows(&t, SHELL, now));
}

#[test]
fn attenuate_shrinks_only() {
    let a = auth();
    let full = strings(&[PLOT_READ, PLOT_WRITE, LOCAL_MODEL]);
    let (now, id, at) = clock();
    let root = a.issue(&full, id, at.clone(), None).unwrap();

    let keep = strings(&[PLOT_READ]);
    let child = a.attenuate(&root, &keep, now, "t-child".into(), at.clone(), None).unwrap();
    assert_eq!(child.parent.as_deref(), Some(root.id.as_str()));
    assert!(child.rights.contains(&PLOT_READ.to_string()));
    assert!(!child.rights.contains(&PLOT_WRITE.to_string()));
    a.verify(&child, now).unwrap();

    // Cannot widen.
    let mut widen = child.rights.clone();
    widen.push(SHELL.to_string());
    assert!(matches!(
        a.attenuate(&child, &widen, now, "t-wide".into(), at, None),
        Err(CapError::WidenForbidden)
    ));
}

#[test]
fn tampered_mac_fails() {
    let a = auth();
    let rights = strings(&[PLOT_READ]);
    let (now, id, at) = clock();
    let mut t = a.issue(&rights, id, at, None).unwrap();
    t.mac = "00".repeat(32);
    assert!(matches!(a.verify(&t, now), Err(CapError::BadMac)));
}

#[test]
fn unknown_right_rejected() {
    let a = auth();
    let rights = strings(&["admin.all"]);
    let (_, id, at) = clock();
    assert!(matches!(a.issue(&rights, id, at, None), Err(CapError::UnknownRight(_))));
}

#[test]
fn mac_is_hex_hmac_of_payload() {
    let a = auth();
    let t = token(strings(&[PLOT_READ]), "", None);
    let mac = a.mac_hex(&t).unwrap();
    assert_eq!(mac.len(), 64);
    assert!(mac.chars().all(|c| c.is_ascii_hexdigit() && !c.is_ascii_uppercase()));
    let other = CapAuthority::from_bytes([8u8; 32]).mac_hex(&t).unwrap();
    assert_ne!(mac, other);
    let mut t2 = t.clone();
    t2.id = "t-other".into();
    assert_ne!(a.mac_hex(&t2).unwrap(), mac);
    t2 = t.clone();
    t2.mac = "ignored".into();
    assert_eq!(a.mac_hex(&t2).unwrap(), mac);
}

#[test]
fn expired_or_foreign_tokens_fail() {
    let a = auth();
    let (now, id, at) = clock();
    let t = a.issue(&strings(&[PLOT_READ]), id, at.clone(), Some(in_secs(-60))).unwrap();
    assert!(matches!(a.verify(&t, now), Err(CapError::Expired)));
    assert!(!a.allows(&t, PLOT_READ, now));
    let other = CapAuthority::from_bytes([9u8; 32]);
    let t = a.issue(&strings(&[PLOT_READ]), "t-x".into(), at.clone(), None).unwrap();
    assert!(matches!(other.verify(&t, now), Err(CapError::BadMac)));
    let child = a
        .attenuate(&t, &strings(&[PLOT_READ]), now, "t-y".into(), at, Some(in_secs(60)))
        .unwrap();
    assert!(matches!(other.attenuate(&child, &[], now, "z".into(), "z".into(), None), Err(CapError::BadMac)));
}

#[test]
fn least_unknown_right_is_reported() {
    match issue_rights(&strings(&["zeta", PLOT_READ, "alpha"])) {
        Err(CapError::UnknownRight(r)) => assert_eq!(r, "alpha"),
        other => panic!("unexpected: {:?}", other),
    }
    assert!(matches!(issue_rights(&[]), Err(CapError::EmptyRights)));
}

#[test]
fn charter_rights_sets() {
    assert_eq!(
        rights_for_charter(true, false, false, false),
        strings(&[LOCAL_MODEL, PLOT_READ, PLOT_WRITE])
    );
    assert_eq!(
        rights_for_charter(true, true, true, true),
        strings(&[CLOUD_MODEL, LOCAL_MODEL, NETWORK, PLOT_READ, PLOT_WRITE, SHELL])
    );
    assert_eq!(rights_for_charter(false, false, false, false), strings(&[PLOT_READ, PLOT_WRITE]));
}

#[test]
fn rights_become_a_sorted_set() {
    assert_eq!(
        right_set(&strings(&["shell", "plot.read", "shell", "cloud.model"])),
        strings(&["cloud.model", "plot.read", "shell"])
    );
    assert_eq!(right_set(&[]), Vec::<String>::new());
}

#[test]
fn attenuation_errors_in_order() {
    let parent = strings(&[PLOT_READ, "bogus"]);
    assert!(matches!(attenuate_rights(&parent, &[]), Err(CapError::EmptyRights)));
    match attenuate_rights(&parent, &strings(&["bogus"])) {
        Err(CapError::UnknownRight(r)) => assert_eq!(r, "bogus"),
        other => panic!("unexpected: {:?}", other),
    }
    assert!(matches!(
        attenuate_rights(&parent, &strings(&[SHELL, "bogus"])),
        Err(CapError::WidenForbidden)
    ));
    assert_eq!(
        attenuate_rights(&parent, &strings(&[PLOT_READ, PLOT_READ])).unwrap(),
        strings(&[PLOT_READ])
    );
}

#[test]
fn rights_checks() {
    assert!(validate_right(SHELL).is_ok());
    assert!(matches!(validate_right("Shell"), Err(CapError::UnknownRight(_))));
    assert!(matches!(check_rights(&[]), Err(CapError::EmptyRights)));
    assert!(check_rights(&strings(&[PLOT_READ, PLOT_WRITE])).is_ok());
}

#[test]
fn expiry_at_given_instant() {
    let exp = Some("2024-01-01T00:00:00Z".to_string());
    assert!(check_expiry((NEW_YEAR, 0), &exp).is_ok());
    assert!(matches!(check_expiry((NEW_YEAR, 1), &exp), Err(CapError::Expired)));
    assert!(matches!(check_expiry((NEW_YEAR + 1, 0), &exp), Err(CapError::Expired)));
    assert!(check_expiry((NEW_YEAR - 1, 999_999_999), &exp).is_ok());
    assert!(check_expiry((NEW_YEAR + 100, 0), &None).is_ok());
    let offset = Some("2024-01-01T01:00:00+01:00".to_string());
    assert!(matches!(check_expiry((NEW_YEAR, 1), &offset), Err(CapError::Expired)));
    assert!(matches!(
        check_expiry((NEW_YEAR, 0), &Some("not a time".to_string())),
        Err(CapError::Invalid(_))
    ));
}

#[test]
fn expired_token_fails_after_mac() {
    let rights = issue_rights(&strings(&[PLOT_READ])).unwrap();
    let t = token(rights, "mac", Some("2024-01-01T00:00:00Z"));
    assert!(matches!(verify_token(&t, "mac", (NEW_YEAR + 5, 0)), Err(CapError::Expired)));
    assert!(matches!(verify_token(&t, "other", (NEW_YEAR + 5, 0)), Err(CapError::BadMac)));
    let empty = token(Vec::new(), "mac", None);
    assert!(matches!(verify_token(&empty, "mac", (NEW_YEAR, 0)), Err(CapError::EmptyRights)));
}

#[test]
fn child_never_outlives_parent() {
    let parent = Some("2024-01-01T02:00:00+02:00".to_string());
    let later = Some("2024-01-01T05:00:00Z".to_string());
    let earlier = Some("2023-12-31T23:00:00Z".to_string());
    assert_eq!(capped_expiry(&later, &parent), Some("2024-01-01T00:00:00+00:00".to_string()));
    assert_eq!(capped_expiry(&earlier, &parent), Some("2023-12-31T23:00:00+00:00".to_string()));
    assert_eq!(capped_expiry(&None, &parent), Some("2024-01-01T00:00:00+00:00".to_string()));
    assert_eq!(capped_expiry(&later, &None), later);
    assert_eq!(capped_expiry(&later, &Some("junk".to_string())), later);
}

#[test]
fn payload_is_canonical() {
    let mut t = token(strings(&[LOCAL_MODEL, PLOT_READ]), "x", None);
    assert_eq!(
        canonical_payload(&t),
        "v1|id=t-20240101T000000.000Z|parent=|issued=2024-01-01T00:00:00+00:00|expires=|rights=local.model,plot.read"
    );
    t.parent = Some("t-0".to_string());
    t.expires_at = Some("2024-01-02T00:00:00+00:00".to_string());
    assert_eq!(
        canonical_payload(&t),
        "v1|id=t-20240101T000000.000Z|parent=t-0|issued=2024-01-01T00:00:00+00:00|expires=2024-01-02T00:00:00+00:00|rights=local.model,plot.read"
    );
}

#[test]
fn byte_comparison() {
    assert!(constant_time_eq(b"abc", b"abc"));
    assert!(!constant_time_eq(b"abc", b"abd"));
    assert!(!constant_time_eq(b"abc", b"ab"));
    assert!(constant_time_eq(b"", b""));
}

#[test]
fn error_messages() {
    assert_eq!(CapError::UnknownRight("x".to_string()).message(), "unknown right: x");
    assert_eq!(CapError::WidenForbidden.message(), "attenuation would widen rights");
    assert_eq!(CapError::Invalid("bad".to_string()).message(), "invalid token: bad");
    assert_eq!(CapError::EmptyRights.message(), "empty rights");
    assert_eq!(CapError::Expired.message(), "token expired");
    assert_eq!(CapError::BadMac.message(), "mac verification failed");
}

#[test]
fn issued_token_body() {
    let t = issue_token(
        &strings(&[SHELL, PLOT_READ]),
        "t-1".into(),
        "2024-01-01T00:00:00+00:00".into(),
        None,
    )
    .unwrap();
    assert_eq!(t.id, "t-1");
    assert_eq!(t.parent, None);
    assert_eq!(t.rights, strings(&[PLOT_READ, SHELL]));
    assert_eq!(t.mac, "");
    assert!(matches!(
        issue_token(&[], "t-2".into(), "x".into(), None),
        Err(CapError::EmptyRights)
    ));
}
