use helix::atlas::{Trust, UNTRUSTED_FUEL_CAP};
use helix::cli::{
    ask_verdict, base_url, effective_fuel, hands_plot_dir, is_clean, module_argv, offline_ask,
    secret_from_input, split_list,
};
use helix::memory::{HelixHome, MemoryError};

#[test]
fn daemon_url() {
    assert_eq!(base_url(None), "http://127.0.0.1:7420");
    assert_eq!(base_url(Some("127.0.0.1:9000")), "http://127.0.0.1:9000");
}

#[test]
fn verdict_flags() {
    assert_eq!(ask_verdict(true, true, true).as_deref(), Some("accept"));
    assert_eq!(ask_verdict(false, true, true).as_deref(), Some("reject"));
    assert_eq!(ask_verdict(false, false, true).as_deref(), Some("edit"));
    assert_eq!(ask_verdict(false, false, false), None);
}

#[test]
fn comma_lists() {
    assert_eq!(split_list(" plot.read, ,local.model ,"), vec!["plot.read".to_string(), "local.model".to_string()]);
    assert!(split_list("").is_empty());
    assert_eq!(split_list("shell"), vec!["shell".to_string()]);
}

#[test]
fn fuel_for_untrusted_modules() {
    let t = Trust::Trusted { name: "n".into(), sha256: "s".into() };
    let u = Trust::Untrusted { reason: "r".into(), sha256: "s".into(), fuel_cap: UNTRUSTED_FUEL_CAP };
    assert_eq!(effective_fuel(None, &t), None);
    assert_eq!(effective_fuel(None, &u), Some(UNTRUSTED_FUEL_CAP));
    assert_eq!(effective_fuel(Some(5), &u), Some(5));
    assert_eq!(effective_fuel(Some(5), &t), Some(5));
}

#[test]
fn guest_argv() {
    assert_eq!(
        module_argv(Some("demo.wasm"), vec!["a".into()]),
        vec!["demo.wasm".to_string(), "a".to_string()]
    );
    assert_eq!(module_argv(None, vec![]), vec!["module".to_string()]);
}

#[test]
fn plot_for_hands() {
    let h = HelixHome { root: "/h".into() };
    assert_eq!(hands_plot_dir(&h, "default", false).unwrap(), "/h/plots/default");
    assert_eq!(hands_plot_dir(&h, "work", true).unwrap(), "/h/plots/work");
    assert!(matches!(hands_plot_dir(&h, "work", false), Err(MemoryError::PlotNotFound(_))));
    assert!(matches!(hands_plot_dir(&h, "../x", true), Err(MemoryError::InvalidPlotName(_))));
}

#[test]
fn clean_working_tree() {
    assert!(is_clean(&Some("abc".into()), "abc"));
    assert!(!is_clean(&Some("abc".into()), "abd"));
    assert!(!is_clean(&None, "abc"));
}

#[test]
fn secret_input_trailing_newlines() {
    assert_eq!(secret_from_input("sk-1\n\n"), "sk-1");
    assert_eq!(secret_from_input("a b \n"), "a b ");
}

#[test]
fn offline_answer_text() {
    assert_eq!(
        offline_ask("hearthside", "S", "", "", "refused", "hi"),
        "Charter (hearthside): S\n\n(daemon unreachable: refused)\nUser: hi\n"
    );
    assert_eq!(
        offline_ask("desk", "S", "P", "R", "e", "q"),
        "Charter (desk): S\n\nP\nMemory:\nR\n\n(daemon unreachable: e)\nUser: q\n"
    );
}
