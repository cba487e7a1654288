use helix::memory::{HelixHome, MemoryError, PREFS_CONTEXT_CHAR_CAP};
use helix::plots::PlotProbe;
use helix::recall::{MemoryDoc};

fn home() -> HelixHome {
    HelixHome { root: "/tmp/helix-mem".to_string() }
}

fn probe_plot() -> PlotProbe {
    PlotProbe {
        plot_is_dir: true,
        plot_canonical: Some("/tmp/helix-mem/plots/default".to_string()),
        target_canonical: None,
        parent_canonical: None,
    }
}

#[test]
fn init_layout() {
    let h = home();
    let dirs = h.layout_dirs();
    assert!(dirs.contains(&"/tmp/helix-mem/plots/default".to_string()));
    assert!(dirs.contains(&"/tmp/helix-mem/memory/episodes".to_string()));
    assert_eq!(dirs.len(), 9);
    assert_eq!(HelixHome::read_pack(None), "hearthside");
}

#[test]
fn pack_file_roundtrip() {
    let text = HelixHome::write_pack("workshop");
    assert_eq!(text, "pack = \"workshop\"\n");
    assert_eq!(HelixHome::read_pack(Some(&text)), "workshop");
    assert_eq!(HelixHome::read_pack(Some("# comment\n  pack =   desk  \nx")), "desk");
    assert_eq!(HelixHome::read_pack(Some("pack = \"\"\npack = 'x'")), "'x'");
    assert_eq!(HelixHome::read_pack(Some("packing = 1\n")), "hearthside");
    assert_eq!(HelixHome::read_pack(Some("")), "hearthside");
    assert_eq!(HelixHome::read_pack(Some("pack: desk")), "hearthside");
    assert_eq!(HelixHome::read_pack(Some("\r\n pack=\"desk\"\r\n")), "desk");
}

#[test]
fn resolve_home() {
    assert_eq!(HelixHome::resolve(Some("/x".into()), Some("/home/u".into())).unwrap().root, "/x");
    assert_eq!(HelixHome::resolve(None, Some("/home/u".into())).unwrap().root, "/home/u/Helix");
    assert!(matches!(HelixHome::resolve(None, None), Err(MemoryError::NoHome)));
}

#[test]
fn prefs_roundtrip() {
    let h = home();
    let (path, body) = h.pref_add("tone", "  Be concise.\n").unwrap();
    assert_eq!(path, "/tmp/helix-mem/memory/prefs/tone.md");
    assert_eq!(body, "Be concise.");
    let list = HelixHome::pref_list(&[("tone.md".to_string(), body.clone())]);
    assert_eq!(list.len(), 1);
    let ctx = HelixHome::prefs_context(&list, PREFS_CONTEXT_CHAR_CAP);
    assert!(ctx.contains("tone"));
    assert_eq!(h.pref_delete("tone", true).unwrap(), path);
    assert!(HelixHome::pref_list(&[]).is_empty());
}

#[test]
fn pref_errors() {
    let h = home();
    assert!(matches!(h.pref_add("Tone", "x"), Err(MemoryError::InvalidPrefName(_))));
    assert!(matches!(h.pref_add("", "x"), Err(MemoryError::InvalidPrefName(_))));
    assert!(matches!(h.pref_delete("tone", false), Err(MemoryError::PrefNotFound(_))));
    assert!(matches!(h.pref_delete("a b", true), Err(MemoryError::InvalidPrefName(_))));
    assert!(HelixHome::validate_pref_name("a_b-9").is_ok());
    assert!(HelixHome::validate_pref_name(&"a".repeat(65)).is_err());
}

#[test]
fn pref_list_filters_and_sorts() {
    let files = vec![
        ("zeta.md".to_string(), "z".to_string()),
        ("notes.txt".to_string(), "n".to_string()),
        (".md".to_string(), "hidden".to_string()),
        ("alpha.md".to_string(), "a".to_string()),
        ("a.b.md".to_string(), "ab".to_string()),
    ];
    let list = HelixHome::pref_list(&files);
    let names: Vec<&str> = list.iter().map(|p| p.0.as_str()).collect();
    assert_eq!(names, vec!["a.b", "alpha", "zeta"]);
    assert_eq!(list[1].1, "a");
}

#[test]
fn prefs_context_respects_cap() {
    let prefs = vec![
        ("a".to_string(), " one ".to_string()),
        ("b".to_string(), "two".to_string()),
    ];
    assert_eq!(HelixHome::prefs_context(&prefs, 1500), "Preferences:\n- a: one\n- b: two\n");
    assert_eq!(HelixHome::prefs_context(&prefs, 23), "Preferences:\n- a: one\n");
    assert_eq!(HelixHome::prefs_context(&prefs, 5), "Preferences:\n");
    assert_eq!(HelixHome::prefs_context(&[], 5), "");
}

#[test]
fn episode_write() {
    let h = home();
    let (ep, promote) =
        HelixHome::write_episode("hello", "hi there", "accept", None, "20260101T000000.000Z", "now".into());
    assert!(ep.id.starts_with("ep-"));
    assert!(promote);
    assert_eq!(
        h.episode_path(&ep.id),
        "/tmp/helix-mem/memory/episodes/ep-20260101T000000.000Z.json"
    );
    let (ep2, promote2) = HelixHome::write_episode("q", "r", "reject", Some("e"), "s", "now".into());
    assert!(!promote2);
    assert_eq!(ep2.edit.as_deref(), Some("e"));
}

#[test]
fn plot_commit_rewind() {
    let files_v1 = vec![("note.txt".to_string(), b"v1".to_vec())];
    let m1 = HelixHome::tree_manifest(&files_v1);
    let c1 = HelixHome::plot_commit(&m1, Some("first".into()), "2026-01-01T00:00:00Z".into());
    assert_eq!(c1.file_count, 1);
    let files_v2 = vec![("note.txt".to_string(), b"v2".to_vec())];
    let m2 = HelixHome::tree_manifest(&files_v2);
    let c2 = HelixHome::plot_commit(&m2, Some("second".into()), "2026-01-02T00:00:00Z".into());
    assert_ne!(c1.id, c2.id);
    let listed = HelixHome::plot_list(vec![c1.clone(), c2.clone()]);
    assert_eq!(listed[0].id, c2.id);
    let (restored, tree) =
        HelixHome::plot_rewind("/tmp/helix-mem/plots/default", &listed, &c1.id[..12], true).unwrap();
    assert_eq!(restored.id, c1.id);
    assert_eq!(tree, format!("/tmp/helix-mem/plots/default/.helix/commits/{}/tree", c1.id));
}

#[test]
fn rewind_errors() {
    let a = HelixHome::plot_commit(&[], None, "t1".into());
    let mut b = a.clone();
    b.id = format!("{}x", a.id);
    let commits = vec![a.clone(), b.clone()];
    assert!(matches!(HelixHome::select_commit(&commits, "zzz"), Err(MemoryError::CommitNotFound(_))));
    assert_eq!(HelixHome::select_commit(&commits, &a.id).unwrap().id, a.id);
    assert!(matches!(
        HelixHome::select_commit(&commits, &a.id[..10]),
        Err(MemoryError::AmbiguousCommit(_))
    ));
    assert!(matches!(
        HelixHome::plot_rewind("/p", &commits, &b.id, false),
        Err(MemoryError::CommitNotFound(ref id)) if *id == b.id
    ));
}

#[test]
fn manifest_identity() {
    let m = HelixHome::tree_manifest(&[
        ("b.txt".to_string(), b"B".to_vec()),
        ("a.txt".to_string(), b"".to_vec()),
    ]);
    assert_eq!(m[0].0, "a.txt");
    assert_eq!(m[0].1, "e3b0c44298fc1c149afbf4c8996fb92427ae41e4649b934ca495991b7852b855");
    assert_eq!(m[1].0, "b.txt");
    // SHA-256 of the empty manifest.
    assert_eq!(
        HelixHome::manifest_id(&[]),
        "e3b0c44298fc1c149afbf4c8996fb92427ae41e4649b934ca495991b7852b855"
    );
    // SHA-256 of "a\0b\n".
    let one = vec![("a".to_string(), "b".to_string())];
    assert_eq!(HelixHome::manifest_id(&one).len(), 64);
    assert_ne!(HelixHome::manifest_id(&one), HelixHome::manifest_id(&[]));
}

#[test]
fn plot_status_reports_head_and_working() {
    let h = home();
    let files = vec![("n.txt".to_string(), b"x".to_vec())];
    let (head, working) = h.plot_status("default", true, Some("  abc \n"), &files).unwrap();
    assert_eq!(head.as_deref(), Some("abc"));
    assert_eq!(working, HelixHome::manifest_id(&HelixHome::tree_manifest(&files)));
    let (head, _) = h.plot_status("default", true, Some("   "), &files).unwrap();
    assert_eq!(head, None);
    assert!(matches!(h.plot_status("default", false, None, &files), Err(MemoryError::PlotNotFound(_))));
    assert!(matches!(h.plot_status("../x", true, None, &files), Err(MemoryError::InvalidPlotName(_))));
}

#[test]
fn plot_files_roundtrip() {
    let h = home();
    let p = probe_plot();
    let path = h.plot_write_file("default", "notes/hello.txt", &p, false).unwrap();
    assert_eq!(path, "/tmp/helix-mem/plots/default/notes/hello.txt");
    let read = h.plot_read_file("default", "notes/hello.txt", &p, true, false).unwrap();
    assert_eq!(read, path);
    let listing = vec![("notes".to_string(), true), (".helix".to_string(), true)];
    let entries = h.plot_list_files("default", "", &p, true, true, &listing).unwrap();
    assert!(entries.iter().any(|e| e.path == "notes" && e.is_dir));
    assert_eq!(entries.len(), 1);
    let nested_probe = PlotProbe {
        target_canonical: Some("/tmp/helix-mem/plots/default/notes".to_string()),
        ..probe_plot()
    };
    let nested = h
        .plot_list_files("default", "notes", &nested_probe, true, true, &[("hello.txt".to_string(), false)])
        .unwrap();
    assert!(nested.iter().any(|e| e.path == "notes/hello.txt" && !e.is_dir));
    assert_eq!(h.plot_delete_file("default", "notes/hello.txt", &p, true, false).unwrap(), path);
    assert!(h.plot_read_file("default", "notes/hello.txt", &p, false, false).is_err());
}

#[test]
fn plot_files_reject_escape() {
    let h = home();
    let p = probe_plot();
    assert!(h.plot_resolve("default", "../outside", &p).is_err());
    assert!(h.plot_resolve("default", ".helix/secret", &p).is_err());
    assert!(h.plot_resolve("default", "/etc/passwd", &p).is_err());
}

#[test]
fn plot_resolve_cases() {
    let h = home();
    let p = probe_plot();
    assert_eq!(h.plot_resolve("default", "  ", &p).unwrap(), "/tmp/helix-mem/plots/default");
    assert_eq!(h.plot_resolve("default", "./a/b", &p).unwrap(), "/tmp/helix-mem/plots/default/./a/b");
    assert!(matches!(h.plot_resolve("default", "a/../b", &p), Err(MemoryError::InvalidPlotPath(_))));
    assert_eq!(h.plot_resolve("default", "\\x", &p).unwrap(), "/tmp/helix-mem/plots/default/x");
    assert_eq!(h.plot_resolve("default", " \\\\", &p).unwrap(), "/tmp/helix-mem/plots/default");
    assert!(matches!(h.plot_resolve("default", "\\/etc", &p), Err(MemoryError::InvalidPlotPath(_))));
    match h.plot_resolve("default", "\\..", &p) {
        Err(MemoryError::InvalidPlotPath(r)) => assert_eq!(r, ".."),
        other => panic!("unexpected {:?}", other),
    }
    assert_eq!(
        h.plot_candidate("default", "\\a/b"),
        Some("/tmp/helix-mem/plots/default/a/b".to_string())
    );
    assert!(matches!(h.plot_resolve("bad name", "x", &p), Err(MemoryError::InvalidPlotName(_))));
    let missing = PlotProbe { plot_is_dir: false, ..probe_plot() };
    assert!(matches!(h.plot_resolve("default", "x", &missing), Err(MemoryError::PlotNotFound(_))));
    let escaped = PlotProbe { target_canonical: Some("/etc/passwd".to_string()), ..probe_plot() };
    assert!(matches!(h.plot_resolve("default", "link", &escaped), Err(MemoryError::InvalidPlotPath(_))));
    let inside = PlotProbe {
        target_canonical: Some("/tmp/helix-mem/plots/default/real".to_string()),
        ..probe_plot()
    };
    assert_eq!(h.plot_resolve("default", "link", &inside).unwrap(), "/tmp/helix-mem/plots/default/real");
    let bad_parent = PlotProbe { parent_canonical: Some("/tmp/elsewhere".to_string()), ..probe_plot() };
    assert!(matches!(h.plot_resolve("default", "d/new.txt", &bad_parent), Err(MemoryError::InvalidPlotPath(_))));
    let near = PlotProbe {
        target_canonical: Some("/tmp/helix-mem/plots/default2/x".to_string()),
        ..probe_plot()
    };
    assert!(h.plot_resolve("default", "x", &near).is_err());
    assert_eq!(
        h.plot_candidate("default", " a/b "),
        Some("/tmp/helix-mem/plots/default/a/b".to_string())
    );
    assert_eq!(h.plot_candidate("default", "../x"), None);
}

#[test]
fn plot_file_errors() {
    let h = home();
    let p = probe_plot();
    match h.plot_read_file("default", "  ", &p, true, false) {
        Err(MemoryError::InvalidPlotPath(m)) => assert_eq!(m, "(empty)"),
        other => panic!("unexpected {:?}", other),
    }
    assert!(matches!(h.plot_read_file("default", "d", &p, true, true), Err(MemoryError::PlotPathIsDir(_))));
    assert!(matches!(h.plot_write_file("default", "d", &p, true), Err(MemoryError::PlotPathIsDir(_))));
    assert!(matches!(h.plot_delete_file("default", "f", &p, false, false), Err(MemoryError::PlotPathNotFound(_))));
    assert!(matches!(
        h.plot_list_files("default", "f", &p, true, false, &[]),
        Err(MemoryError::PlotPathNotDir(_))
    ));
    assert!(matches!(
        h.plot_list_files("default", "g", &p, false, false, &[]),
        Err(MemoryError::PlotPathNotFound(_))
    ));
}

#[test]
fn retrieve_context_finds_matching_files() {
    let docs = vec![
        MemoryDoc { area: "playbooks".into(), name: "notes.md".into(), text: "How to write NOTES quickly".into() },
        MemoryDoc { area: "episodes".into(), name: "ep-1.json".into(), text: "unrelated".into() },
        MemoryDoc { area: "episodes".into(), name: "ep-0.json".into(), text: "notes on notes".into() },
    ];
    let r = HelixHome::retrieve_context("Write notes!", &docs);
    assert_eq!(r, "[episodes/ep-0.json] notes on notes\n[playbooks/notes.md] How to write NOTES quickly");
    assert_eq!(HelixHome::retrieve_context("a an", &docs), "");
    assert_eq!(HelixHome::retrieve_context("zebra", &docs), "");
}

#[test]
fn retrieve_context_keeps_eight_and_cuts_snippets() {
    let long = "x".repeat(300) + " needle";
    let mut docs = Vec::new();
    for i in 0..10 {
        docs.push(MemoryDoc { area: "tools".into(), name: format!("t{i}"), text: format!("needle {i}") });
    }
    docs.push(MemoryDoc { area: "tools".into(), name: "big".into(), text: long.clone() });
    let r = HelixHome::retrieve_context("needle", &docs);
    let lines: Vec<&str> = r.split('\n').collect();
    assert_eq!(lines.len(), 8);
    assert_eq!(lines[0], format!("[tools/big] {}", "x".repeat(240)));
    assert_eq!(lines[1], "[tools/t0] needle 0");
}

#[test]
fn manifest_sorting() {
    let m = HelixHome::sort_manifest(vec![
        ("z".to_string(), "1".to_string()),
        ("a/b".to_string(), "2".to_string()),
        ("a".to_string(), "3".to_string()),
    ]);
    let paths: Vec<&str> = m.iter().map(|e| e.0.as_str()).collect();
    assert_eq!(paths, vec!["a", "a/b", "z"]);
}

#[test]
fn charter_file_names_its_pack() {
    let c = helix::charter::Charter::builtin("desk").unwrap();
    assert_eq!(HelixHome::read_pack(Some(&c.to_toml())), "desk");
    let text = HelixHome::write_pack("workshop") + "# notes\npack = \"desk\"\n";
    assert_eq!(HelixHome::read_pack(Some(&text)), "workshop");
}

#[test]
fn status_is_clean_right_after_commit() {
    let h = home();
    let files = vec![
        ("b.txt".to_string(), b"two".to_vec()),
        ("a.txt".to_string(), b"one".to_vec()),
    ];
    let c = HelixHome::plot_commit(&HelixHome::tree_manifest(&files), None, "t".into());
    assert_eq!(c.id.len(), 64);
    let head = HelixHome::head_text(&c.id);
    let (recorded, working) = h.plot_status("default", true, Some(&head), &files).unwrap();
    assert_eq!(recorded.as_deref(), Some(c.id.as_str()));
    assert_eq!(working, c.id);
}
