use helix::grants::{check_write_permission, GrantBook, GrantError};
use helix::protocol::{
    CreateGrantRequest, Grant, GrantDecision, GrantScope, GrantStatus, WritePermission,
};

fn allowed_once(id: &str, action: &str) -> Grant {
    Grant {
        id: id.into(),
        created_at: "t".into(),
        action: action.into(),
        summary: "write file".into(),
        requester: None,
        status: GrantStatus::Allowed,
        scope: Some(GrantScope::Once),
        decided_at: Some("t".into()),
    }
}

fn request(action: &str, summary: &str) -> CreateGrantRequest {
    CreateGrantRequest { action: action.into(), summary: summary.into(), requester: None }
}

#[test]
fn writes_require_ask_blocks_without_grant() {
    let mut book = GrantBook::new();
    assert_eq!(check_write_permission("hearthside", &mut book, "plot.write"), WritePermission::NeedsGrant);
}

#[test]
fn allow_once_then_consume() {
    let mut book = GrantBook::new();
    book.put(allowed_once("g-1", "plot.write"));
    assert_eq!(check_write_permission("hearthside", &mut book, "plot.write"), WritePermission::Allowed);
    assert_eq!(check_write_permission("hearthside", &mut book, "plot.write"), WritePermission::NeedsGrant);
    assert_eq!(book.list()[0].status, GrantStatus::Consumed);
}

#[test]
fn task_grant_keeps_allowing() {
    let mut book = GrantBook::new();
    let g = book.create("hearthside", request("plot.write", "notes"), "g-1".into(), "t1".into()).unwrap();
    assert_eq!(g.status, GrantStatus::Pending);
    assert_eq!(
        check_write_permission("hearthside", &mut book, "plot.write"),
        WritePermission::PendingExists
    );
    let d = book.decide("g-1", GrantDecision::AllowTask, "t2".into()).unwrap();
    assert_eq!(d.scope, Some(GrantScope::Task));
    assert_eq!(d.decided_at.as_deref(), Some("t2"));
    for _ in 0..3 {
        assert_eq!(check_write_permission("hearthside", &mut book, "plot.write"), WritePermission::Allowed);
    }
    assert_eq!(check_write_permission("hearthside", &mut book, "other"), WritePermission::NeedsGrant);
}

#[test]
fn denied_grant_does_not_allow() {
    let mut book = GrantBook::new();
    book.create("desk", request("plot.write", "notes"), "g-9".into(), "t".into()).unwrap();
    let d = book.decide("g-9", GrantDecision::Deny, "t2".into()).unwrap();
    assert_eq!(d.status, GrantStatus::Denied);
    assert_eq!(d.scope, None);
    assert_eq!(check_write_permission("desk", &mut book, "plot.write"), WritePermission::NeedsGrant);
}

#[test]
fn decisions_are_final_and_ids_must_exist() {
    let mut book = GrantBook::new();
    book.create("hearthside", request("a", "b"), "g-1".into(), "t".into()).unwrap();
    book.decide("g-1", GrantDecision::AllowOnce, "t".into()).unwrap();
    match book.decide("g-1", GrantDecision::Deny, "t".into()) {
        Err(GrantError::Conflict(m)) => assert_eq!(m, "grant g-1 is already Allowed"),
        other => panic!("unexpected {:?}", other),
    }
    match book.decide("g-2", GrantDecision::Deny, "t".into()) {
        Err(GrantError::NotFound(m)) => assert_eq!(m, "grant not found: g-2"),
        other => panic!("unexpected {:?}", other),
    }
}

#[test]
fn create_validates_request() {
    let mut book = GrantBook::new();
    match book.create("hearthside", request("  ", "x"), "g".into(), "t".into()) {
        Err(GrantError::BadRequest(m)) => assert_eq!(m, "action and summary are required"),
        other => panic!("unexpected {:?}", other),
    }
    match book.create("hearthside", request(&"a".repeat(129), "x"), "g".into(), "t".into()) {
        Err(GrantError::BadRequest(m)) => assert_eq!(m, "action or summary too long"),
        other => panic!("unexpected {:?}", other),
    }
    match book.create("garage", request("a", "x"), "g".into(), "t".into()) {
        Err(GrantError::BadRequest(m)) => assert_eq!(m, "unknown charter pack: garage"),
        other => panic!("unexpected {:?}", other),
    }
    let mut req = request(" plot.write ", " s ");
    req.requester = Some("   ".into());
    let g = book.create("hearthside", req, "g-3".into(), "t".into()).unwrap();
    assert_eq!(g.action, "plot.write");
    assert_eq!(g.summary, "s");
    assert_eq!(g.requester, None);
    assert!(book.list().len() == 1);
}

#[test]
fn unknown_pack_needs_grant() {
    let mut book = GrantBook::new();
    book.put(allowed_once("g-1", "plot.write"));
    assert_eq!(check_write_permission("garage", &mut book, "plot.write"), WritePermission::NeedsGrant);
    assert_eq!(book.list()[0].status, GrantStatus::Allowed);
}

#[test]
fn list_orders_by_creation_time() {
    let mut book = GrantBook::new();
    book.create("hearthside", request("a", "s"), "g-b".into(), "2026-01-02".into()).unwrap();
    book.create("hearthside", request("a", "s"), "g-a".into(), "2026-01-03".into()).unwrap();
    book.create("hearthside", request("a", "s"), "g-c".into(), "2026-01-01".into()).unwrap();
    let ids: Vec<String> = book.list().into_iter().map(|g| g.id).collect();
    assert_eq!(ids, vec!["g-c".to_string(), "g-b".to_string(), "g-a".to_string()]);
}
