use helix::atlas::{Atlas, AtlasError, PinFile, Trust, UNTRUSTED_FUEL_CAP};
use helix::memory::HelixHome;

fn atlas() -> Atlas {
    Atlas::open(HelixHome { root: "/tmp/helix-atlas-test".to_string() })
}

#[test]
fn invalid_name() {
    assert!(Atlas::validate_name("Bad").is_err());
    assert!(Atlas::validate_name("ok-1").is_ok());
}

#[test]
fn name_rules() {
    assert!(Atlas::validate_name("").is_err());
    assert!(Atlas::validate_name("-lead").is_err());
    assert!(Atlas::validate_name("trail-").is_err());
    assert!(Atlas::validate_name(&"a".repeat(64)).is_ok());
    assert!(Atlas::validate_name(&"a".repeat(65)).is_err());
    assert!(Atlas::validate_name("under_score").is_err());
}

#[test]
fn pin_list_unpin_verify() {
    let atlas = atlas();
    let mut file = PinFile::empty();
    let bytes: &[u8] = b"\0asm\x01\0\0\0";
    let pin = atlas
        .pin(&mut file, "demo", "/tmp/tools/demo.wasm".to_string(), bytes, "t0".to_string())
        .unwrap();
    assert!(pin.trusted);
    assert_eq!(pin.sha256.len(), 64);

    let list = atlas.list(file.clone());
    assert_eq!(list.len(), 1);
    assert_eq!(list[0].name, "demo");

    atlas.verify_name(&file, "demo", bytes).unwrap();

    let err = atlas.verify_name(&file, "demo", b"\0asm\x01\0\0\0changed").unwrap_err();
    assert!(matches!(err, AtlasError::DigestMismatch { .. }));

    atlas.unpin(&mut file, "demo").unwrap();
    assert!(atlas.list(file).is_empty());
}

#[test]
fn classify_trusted_and_untrusted() {
    let atlas = atlas();
    let mut file = PinFile::empty();
    let bytes: &[u8] = b"\0asm\x01\0\0\0trusted";
    let path = "/tmp/tools/ok.wasm";
    atlas.pin(&mut file, "ok", path.to_string(), bytes, "t0".to_string()).unwrap();

    match atlas.classify(&file, bytes, Some(path), None) {
        Trust::Trusted { name, .. } => assert_eq!(name, "ok"),
        other => panic!("expected trusted, got {other:?}"),
    }

    match atlas.classify(&file, b"other", None, None) {
        Trust::Untrusted { fuel_cap, .. } => assert_eq!(fuel_cap, UNTRUSTED_FUEL_CAP),
        other => panic!("expected untrusted, got {other:?}"),
    }
}

#[test]
fn sha256_of_empty_input() {
    assert_eq!(
        Atlas::hash_bytes(b""),
        "e3b0c44298fc1c149afbf4c8996fb92427ae41e4649b934ca495991b7852b855"
    );
    assert_eq!(
        Atlas::hash_bytes(b"abc"),
        "ba7816bf8f01cfea414140de5dae2223b00361a396177a9cb410ff61f20015ad"
    );
}

#[test]
fn drifted_pin_is_untrusted_with_reason() {
    let atlas = atlas();
    let mut file = PinFile::empty();
    let pin = atlas
        .pin(&mut file, "tool", "/tmp/tools/t.wasm".to_string(), b"v1", "t0".to_string())
        .unwrap();
    match atlas.classify(&file, b"v2", Some("/tmp/tools/t.wasm"), None) {
        Trust::Untrusted { reason, sha256, fuel_cap } => {
            assert_eq!(fuel_cap, UNTRUSTED_FUEL_CAP);
            assert_eq!(sha256, Atlas::hash_bytes(b"v2"));
            assert_eq!(
                reason,
                format!("digest drift for pin 'tool': expected {}, got {}", pin.sha256, sha256)
            );
        }
        other => panic!("expected untrusted, got {other:?}"),
    }
    match atlas.classify(&file, b"v2", Some("/elsewhere.wasm"), None) {
        Trust::Untrusted { reason, .. } => {
            assert_eq!(reason, "unsigned local tool (not in atlas/pins.json)")
        }
        other => panic!("expected untrusted, got {other:?}"),
    }
}

#[test]
fn repin_replaces_in_place_and_list_sorts() {
    let atlas = atlas();
    let mut file = PinFile::empty();
    atlas.pin(&mut file, "zeta", "/z".to_string(), b"z", "t0".to_string()).unwrap();
    atlas.pin(&mut file, "alpha", "/a".to_string(), b"a", "t1".to_string()).unwrap();
    atlas.pin(&mut file, "zeta", "/z2".to_string(), b"z2", "t2".to_string()).unwrap();
    assert_eq!(file.tools.len(), 2);
    assert_eq!(file.tools[0].name, "zeta");
    assert_eq!(file.tools[0].path, "/z2");
    let names: Vec<String> = atlas.list(file).into_iter().map(|p| p.name).collect();
    assert_eq!(names, vec!["alpha".to_string(), "zeta".to_string()]);
}

#[test]
fn unpin_errors() {
    let atlas = atlas();
    let mut file = PinFile::empty();
    assert!(matches!(atlas.unpin(&mut file, "ghost"), Err(AtlasError::NotFound(_))));
    assert!(matches!(atlas.unpin(&mut file, "Ghost"), Err(AtlasError::InvalidName(_))));
    assert!(matches!(atlas.verify_name(&file, "ghost", b""), Err(AtlasError::NotFound(_))));
}

#[test]
fn pins_path_under_home() {
    assert_eq!(atlas().pins_path(), "/tmp/helix-atlas-test/atlas/pins.json");
}

#[test]
fn digest_level_operations() {
    let atlas = atlas();
    let mut file = PinFile::empty();
    let p = atlas
        .pin_digest(&mut file, "t", "/t".to_string(), "abc".to_string(), "now".to_string())
        .unwrap();
    assert_eq!(p.sha256, "abc");
    assert!(atlas.verify_digest(&file, "t", "abc".to_string()).is_ok());
    match atlas.verify_digest(&file, "t", "def".to_string()) {
        Err(e) => assert_eq!(e.message(), "pin digest mismatch for t: expected abc, got def"),
        Ok(_) => panic!("digest differs"),
    }
    match atlas.classify_digest(&file, "abc".to_string(), None, None) {
        Trust::Trusted { name, sha256 } => {
            assert_eq!(name, "t");
            assert_eq!(sha256, "abc");
        }
        other => panic!("expected trusted, got {other:?}"),
    }
    match atlas.classify_digest(&file, "zzz".to_string(), Some("/elsewhere"), Some("/t")) {
        Trust::Untrusted { reason, .. } => {
            assert_eq!(reason, "digest drift for pin 't': expected abc, got zzz")
        }
        other => panic!("expected untrusted, got {other:?}"),
    }
    assert!(atlas.pin_digest(&mut file, "Bad", "/b".into(), "x".into(), "n".into()).is_err());
    assert_eq!(file.tools.len(), 1);
}
