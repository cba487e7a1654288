use helix::charter::Charter;
use helix::daemon::{answer, ask_charter, bind_allowed, compose_memory, BindIp};

#[test]
fn memory_puts_preferences_first() {
    assert_eq!(compose_memory("", "hits"), "hits");
    assert_eq!(compose_memory("Preferences:\n- a: b\n", "hits"), "Preferences:\n- a: b\n\nhits");
}

#[test]
fn charter_for_ask() {
    assert!(ask_charter("desk").is_ok());
    match ask_charter("garage") {
        Err(b) => assert_eq!(b.error, "unknown charter pack: garage"),
        Ok(_) => panic!("garage is not a pack"),
    }
}

#[test]
fn answer_with_and_without_model() {
    let c = Charter::builtin("hearthside").unwrap();
    let a = answer("hearthside".into(), &c, "mem".into(), Ok("reply".into()));
    assert!(a.model_used);
    assert_eq!(a.reply, "reply");
    assert_eq!(a.memory_context, "mem");
    let mut c2 = c.clone();
    c2.summary = "S".into();
    let b = answer("hearthside".into(), &c2, "mem".into(), Err("down".into()));
    assert!(!b.model_used);
    assert_eq!(b.reply, "Charter (hearthside): S\n\nMemory:\nmem\nOllama was not used (down).");
    assert_eq!(b.pack, "hearthside");
}

#[test]
fn daemon_binds_loopback_only() {
    assert!(bind_allowed(&BindIp::V4([127, 0, 0, 1])));
    assert!(bind_allowed(&BindIp::V4([127, 200, 3, 4])));
    assert!(!bind_allowed(&BindIp::V4([0, 0, 0, 0])));
    assert!(!bind_allowed(&BindIp::V4([192, 168, 1, 1])));
    assert!(bind_allowed(&BindIp::V6([0, 0, 0, 0, 0, 0, 0, 1])));
    assert!(!bind_allowed(&BindIp::V6([0; 8])));
    assert!(!bind_allowed(&BindIp::V6([0, 0, 0, 0, 0, 0xffff, 0x7f00, 1])));
}
