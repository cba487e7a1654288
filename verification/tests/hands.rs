use helix::hands::{default_plot_dir, extract_exit_status, run_outcome, HandsConfig, HandsError};

#[test]
fn default_plot_path() {
    let p = default_plot_dir("/tmp/Helix");
    assert_eq!(p, "/tmp/Helix/plots/default");
}

#[test]
fn rejects_missing_plot() {
    let cfg = HandsConfig::for_plot("/nonexistent/helix-plot-xyz");
    let err = cfg.check_plot(false, false).unwrap_err();
    assert!(matches!(err, HandsError::PlotMissing(_)));
}

#[test]
fn rejects_file_as_plot() {
    let cfg = HandsConfig::for_plot("/tmp/not-a-dir");
    let err = cfg.check_plot(true, false).unwrap_err();
    assert!(matches!(err, HandsError::PlotNotDir(ref p) if p == "/tmp/not-a-dir"));
}

#[test]
fn accepts_directory_plot() {
    let cfg = HandsConfig::for_plot("/tmp/plot");
    assert!(cfg.check_plot(true, true).is_ok());
}

#[test]
fn config_builders() {
    let cfg = HandsConfig::for_plot("/p");
    assert_eq!(cfg.args, vec!["hands".to_string()]);
    assert_eq!(cfg.fuel, None);
    assert!(!cfg.inherit_stdio);
    let cfg = cfg
        .with_args(vec!["m.wasm".to_string(), "x".to_string()])
        .with_fuel(7)
        .with_inherit_stdio(true);
    assert_eq!(cfg.args.len(), 2);
    assert_eq!(cfg.fuel, Some(7));
    assert!(cfg.inherit_stdio);
    assert_eq!(cfg.plot_dir, "/p");
}

#[test]
fn exit_status_from_messages() {
    let causes = vec![
        "error while executing at wasm backtrace".to_string(),
        "Exited with i32 exit status 3".to_string(),
    ];
    assert_eq!(extract_exit_status(&causes), Some(3));
    assert_eq!(extract_exit_status(&["exit code: -2".to_string()]), Some(-2));
    assert_eq!(extract_exit_status(&["I32Exit(42)".to_string()]), Some(42));
    assert_eq!(extract_exit_status(&["trap: unreachable".to_string()]), None);
    assert_eq!(extract_exit_status(&["exit code: x".to_string()]), None);
}

#[test]
fn run_outcome_maps_failures() {
    assert_eq!(run_outcome(None).unwrap().exit_code, 0);
    let r = run_outcome(Some((vec!["I32Exit(5)".to_string()], "boom".to_string()))).unwrap();
    assert_eq!(r.exit_code, 5);
    match run_outcome(Some((vec!["trap".to_string()], "boom".to_string()))) {
        Err(HandsError::Exec(m)) => assert_eq!(m, "boom"),
        other => panic!("unexpected {:?}", other),
    }
}
