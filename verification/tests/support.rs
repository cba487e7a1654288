use helix::digest::sha256_hex;
use helix::keyed::Keyed;
use helix::order::{sort_in_order, str_lt};
use helix::paths::{components, path_join, relative_path, split_char, within};
use helix::text::{ascii_lowercase, bytes_capped, join_strings, trim_end_char, trimmed};

#[test]
fn keyed_map_keeps_keys_sorted_and_unique() {
    let mut m: Keyed<u32> = Keyed::new();
    m.insert("b".to_string(), 2);
    m.insert("a".to_string(), 1);
    m.insert("c".to_string(), 3);
    m.insert("b".to_string(), 20);
    assert_eq!(m.len(), 3);
    assert_eq!(m.entry_at(0).0, "a");
    assert_eq!(m.entry_at(1).1, 20);
    assert_eq!(m.get("c"), Some(&3));
    assert!(m.contains_key("a"));
    assert_eq!(m.remove("a"), Some(1));
    assert_eq!(m.remove("a"), None);
    assert_eq!(m.find("c"), Some(1));
    m.set_value(0, 7);
    assert_eq!(m.get("b"), Some(&7));
}

#[test]
fn string_order_and_sorting() {
    assert!(str_lt("a", "b"));
    assert!(str_lt("ab", "abc"));
    assert!(!str_lt("abc", "ab"));
    assert!(!str_lt("x", "x"));
    assert!(str_lt("Z", "a"));
    let v = sort_in_order(vec!["pear".to_string(), "apple".to_string(), "fig".to_string()]);
    assert_eq!(v, vec!["apple".to_string(), "fig".to_string(), "pear".to_string()]);
}

#[test]
fn unix_paths() {
    assert_eq!(path_join("/h", "x"), "/h/x");
    assert_eq!(path_join("/h/", "x"), "/h/x");
    assert_eq!(path_join("", "x"), "x");
    assert_eq!(path_join("/h", "/abs"), "/abs");
    assert_eq!(split_char("a,,b", ','), vec!["a".to_string(), String::new(), "b".to_string()]);
    assert_eq!(components("/a//b/./c/"), vec!["/", "a", "b", "c"]);
    assert_eq!(components("./x"), vec![".", "x"]);
    assert!(within("/a/b/c", "/a/b"));
    assert!(within("/a/b", "/a/b/"));
    assert!(!within("/a/bc", "/a/b"));
    assert!(!within("a/b", "/a"));
    assert_eq!(relative_path("/a/b/c/d", "/a/b"), "c/d");
    assert_eq!(relative_path("/a/b", "/a/b"), "");
    assert_eq!(relative_path("/x/y", "/a"), "/x/y");
}

#[test]
fn text_helpers() {
    assert_eq!(trimmed("\t hi \u{3000}"), "hi");
    assert_eq!(ascii_lowercase("AbÇ"), "abÇ");
    assert_eq!(trim_end_char("x///", '/'), "x");
    assert_eq!(bytes_capped("héllo", 100), 6);
    assert_eq!(bytes_capped("héllo", 3), 3);
    let items = vec!["a".to_string(), "b".to_string(), "c".to_string()];
    assert_eq!(join_strings(&items, 0, 3, "\n"), "a\nb\nc");
    assert_eq!(join_strings(&items, 1, 2, ", "), "b");
    assert_eq!(join_strings(&items, 1, 1, ", "), "");
}

#[test]
fn sha256_hex_known_value() {
    assert_eq!(
        sha256_hex(b"hello"),
        "2cf24dba5fb0a30e26e83b2ac5b9e29e1b161e5c1fa7425e73043362938b9824"
    );
}
