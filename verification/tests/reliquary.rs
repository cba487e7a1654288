use helix::keyed::Keyed;
use helix::memory::{HelixHome, MemoryError};
use helix::reliquary::{Backend, Reliquary, ReliquaryError};

fn reliquary() -> Reliquary {
    Reliquary::open(HelixHome { root: "/tmp/helix-rel".to_string() }, Keyed::new(), Keyed::new())
}

fn add(r: &mut Reliquary, name: &str, value: &str, keychain: bool) -> Result<helix::reliquary::SecretMeta, ReliquaryError> {
    r.add(name, value, keychain, "2026-01-01T00:00:00Z".to_string(), format!("local-{name}"))
}

#[test]
fn add_list_revoke() {
    let mut r = reliquary();
    let meta = add(&mut r, "api-token", "s3cr3t-value", false).unwrap();
    assert_eq!(meta.name, "api-token");
    assert_eq!(meta.backend, Backend::LocalSealed);
    let list = r.list();
    assert_eq!(list.len(), 1);
    assert_eq!(list[0].name, "api-token");
    let unwrapped = r.unwrap("api-token").unwrap();
    assert_eq!(unwrapped, "s3cr3t-value");
    r.revoke("api-token").unwrap();
    assert!(r.list().is_empty());
    assert!(r.unwrap("api-token").is_err());
}

#[test]
fn reject_invalid_name() {
    assert!(Reliquary::validate_name("Bad").is_err());
    assert!(Reliquary::validate_name("ok-name").is_ok());
}

#[test]
fn no_duplicate() {
    let mut r = reliquary();
    add(&mut r, "x", "v1", false).unwrap();
    assert!(matches!(add(&mut r, "x", "v2", false), Err(ReliquaryError::AlreadyExists(_))));
    assert_eq!(r.unwrap("x").unwrap(), "v1");
}

#[test]
fn keychain_stub_flag() {
    let mut r = reliquary();
    let meta = add(&mut r, "kc-item", "hidden", true).unwrap();
    assert_eq!(meta.backend, Backend::KeychainStub);
    assert_eq!(r.unwrap("kc-item").unwrap(), "hidden");
}

#[test]
fn empty_value_and_bad_names() {
    let mut r = reliquary();
    assert!(matches!(add(&mut r, "k", "", false), Err(ReliquaryError::EmptyValue)));
    assert!(matches!(add(&mut r, "-k", "v", false), Err(ReliquaryError::InvalidName(_))));
    assert!(matches!(r.revoke("missing"), Err(ReliquaryError::NotFound(_))));
    match r.unwrap("missing") {
        Err(e) => assert_eq!(e.message(), "secret not found: missing"),
        Ok(_) => panic!("nothing was added"),
    }
}

#[test]
fn list_is_in_name_order_and_keeps_others() {
    let mut r = reliquary();
    add(&mut r, "zeta", "1", false).unwrap();
    add(&mut r, "alpha", "2", false).unwrap();
    add(&mut r, "mid", "3", false).unwrap();
    let names: Vec<String> = r.list().into_iter().map(|m| m.name).collect();
    assert_eq!(names, vec!["alpha".to_string(), "mid".to_string(), "zeta".to_string()]);
    r.revoke("mid").unwrap();
    assert_eq!(r.unwrap("alpha").unwrap(), "2");
    assert_eq!(r.unwrap("zeta").unwrap(), "1");
}

#[test]
fn paths_under_home() {
    let r = reliquary();
    assert_eq!(r.reliquary_dir(), "/tmp/helix-rel/reliquary");
    assert_eq!(r.catalog_path(), "/tmp/helix-rel/reliquary/catalog.json");
    assert_eq!(r.sealed_path(), "/tmp/helix-rel/reliquary/sealed.json");
}

#[test]
fn from_resolved_maps_missing_home() {
    let r = Reliquary::from_resolved(Err(MemoryError::NoHome), Keyed::new(), Keyed::new());
    match r {
        Err(e) => {
            assert!(matches!(e, ReliquaryError::Io(_)));
            assert_eq!(e.message(), "home directory not found");
        }
        Ok(_) => panic!("no home"),
    }
    let home = HelixHome::resolve(Some("/h".to_string()), None).unwrap();
    let r = Reliquary::from_resolved(Ok(home), Keyed::new(), Keyed::new()).unwrap();
    assert_eq!(r.reliquary_dir(), "/h/reliquary");
}

#[test]
fn keychain_stubs() {
    assert!(matches!(helix::reliquary::keychain_store_stub("a", "b"), Ok(())));
    assert!(matches!(helix::reliquary::keychain_delete_stub("a"), Ok(())));
    assert!(matches!(helix::reliquary::keychain_unwrap_stub("a"), Err(ReliquaryError::KeychainStub)));
}

#[test]
fn list_is_in_name_order_one_per_name() {
    let mut r = reliquary();
    add(&mut r, "zeta", "1", false).unwrap();
    add(&mut r, "alpha", "2", true).unwrap();
    add(&mut r, "mid", "3", false).unwrap();
    let names: Vec<String> = r.list().into_iter().map(|m| m.name).collect();
    assert_eq!(names, vec!["alpha", "mid", "zeta"]);
    r.revoke("mid").unwrap();
    let names: Vec<String> = r.list().into_iter().map(|m| m.name).collect();
    assert_eq!(names, vec!["alpha", "zeta"]);
}
