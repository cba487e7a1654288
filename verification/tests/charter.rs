use helix::charter::{Charter, CharterError};

#[test]
fn hearthside_has_no_shell() {
    let c = Charter::builtin("hearthside").unwrap();
    assert!(!c.allow_shell);
    assert!(!c.allow_cloud_model);
}

#[test]
fn builtin_packs_flags() {
    let d = Charter::builtin("desk").unwrap();
    assert!(d.allow_network_adapters && !d.allow_shell && !d.allow_cloud_model);
    let w = Charter::builtin("workshop").unwrap();
    assert!(w.allow_shell && w.allow_cloud_model && w.allow_network_adapters);
    for c in [d, w, Charter::builtin("hearthside").unwrap()] {
        assert!(c.allow_local_model);
        assert!(c.writes_require_ask);
    }
}

#[test]
fn unknown_pack_rejected() {
    match Charter::builtin("garage") {
        Err(e) => {
            assert!(matches!(e, CharterError::UnknownPack(ref p) if p == "garage"));
            assert_eq!(e.message(), "unknown charter pack: garage");
        }
        Ok(_) => panic!("garage is not a pack"),
    }
}

#[test]
fn to_toml_flattens_summary() {
    let mut c = Charter::builtin("desk").unwrap();
    c.summary = "line one\nline two".to_string();
    assert_eq!(c.to_toml(), "pack = \"desk\"\n# line one line two\n");
}

#[test]
fn from_toml_keeps_or_replaces_summary() {
    let c = Charter::from_toml("workshop", None).unwrap();
    assert_eq!(c.summary, Charter::builtin("workshop").unwrap().summary);
    let c = Charter::from_toml("workshop", Some("mine".to_string())).unwrap();
    assert_eq!(c.summary, "mine");
    assert!(c.allow_shell);
    assert!(Charter::from_toml("nope", None).is_err());
}

#[test]
fn builtin_charter_round_trips_through_its_file() {
    for p in ["hearthside", "desk", "workshop"] {
        let c = Charter::builtin(p).unwrap();
        let text = c.to_toml();
        let table: toml::Table = toml::from_str(&text).unwrap();
        let pack = table["pack"].as_str().unwrap();
        assert!(table.get("summary").is_none());
        let d = Charter::from_toml(pack, None).unwrap();
        assert_eq!(d.pack, c.pack);
        assert_eq!(d.summary, c.summary);
        assert_eq!(d.allow_local_model, c.allow_local_model);
        assert_eq!(d.allow_cloud_model, c.allow_cloud_model);
        assert_eq!(d.allow_network_adapters, c.allow_network_adapters);
        assert_eq!(d.allow_shell, c.allow_shell);
        assert_eq!(d.writes_require_ask, c.writes_require_ask);
    }
}
