use std::cmp::Ordering;

use aicontext::self_update::{
    cargo_install_args, cargo_install_display, cargo_outcome, check_report, compare_versions, extract_version,
    update_decision, UpdateDecision, CARGO_INSTALL_CMD, GIT_URL, INSTALLER_CMD,
};

/// The registry answer's candidate strings, in the order the library reads them.
fn candidates(body: &str) -> Vec<Option<String>> {
    let v: serde_json::Value = serde_json::from_str(body).unwrap();
    let pick = |x: Option<&serde_json::Value>| x.and_then(|y| y.as_str()).map(|s| s.to_string());
    vec![
        pick(v.pointer("/crate/max_version")),
        pick(v.get("max_version")),
        pick(v.get("version")),
        pick(v.get("tag_name")),
    ]
}

#[test]
fn version_ordering_handles_missing_parts() {
    if compare_versions("0.1.0", "0.2.0") == Ordering::Less {
        // expected
    } else {
        panic!("0.1.0 must be older than 0.2.0");
    }
    assert_eq!(compare_versions("0.1.0", "0.1.0"), Ordering::Equal);
    assert_eq!(compare_versions("0.2.0", "0.1.9"), Ordering::Greater);
    assert_eq!(compare_versions("0.1", "0.1.0"), Ordering::Less);
}

#[test]
fn extract_version_prefers_crates_shape() {
    assert_eq!(
        extract_version(&candidates(r#"{"crate":{"max_version":"1.4.2"}}"#)).as_deref(),
        Some("1.4.2")
    );
    assert_eq!(extract_version(&candidates(r#"{"tag_name":"v0.9.0"}"#)).as_deref(), Some("0.9.0"));
    assert_eq!(extract_version(&candidates(r#"{"crate":{}}"#)), None);
}

#[test]
fn extract_version_handles_github_release_shape() {
    let release = candidates(r#"{"tag_name":"v0.4.0","name":"0.4.0","draft":false,"prerelease":false}"#);
    assert_eq!(extract_version(&release).as_deref(), Some("0.4.0"));
}

#[test]
fn extract_version_skips_blank_candidates() {
    let c = vec![Some("   ".to_string()), None, Some(" v".to_string()), Some(" v2.0.1 ".to_string())];
    assert_eq!(extract_version(&c).as_deref(), Some("2.0.1"));
    assert_eq!(extract_version(&vec![None, None]), None);
}

#[test]
fn cargo_install_uses_git_and_pins_tag() {
    let pinned = cargo_install_args(Some("0.4.0"));
    assert_eq!(pinned, vec!["install", "--git", GIT_URL, "--tag", "v0.4.0", "--locked"]);
    let display = cargo_install_display(Some("0.4.0"));
    assert!(display.contains("--git"), "display must show git: {display}");
    assert!(display.contains("--tag v0.4.0"), "display must pin tag: {display}");
    assert!(
        !display.contains("cargo install aicontext "),
        "must not use the unpublished crates.io name: {display}"
    );
    let unpinned = cargo_install_args(None);
    assert_eq!(unpinned, vec!["install", "--git", GIT_URL, "--locked"]);
}

#[test]
fn version_order_is_antisymmetric_on_samples() {
    let samples = ["0.1", "0.1.0", "1.2.3", "1.10.0", "1.9.9", "v1.2.3", "2", "0.0.0"];
    for a in samples {
        assert_eq!(compare_versions(a, a), Ordering::Equal);
        for b in samples {
            assert_eq!(compare_versions(a, b), compare_versions(b, a).reverse(), "{a} vs {b}");
        }
    }
    assert_eq!(compare_versions("1.10.0", "1.9.9"), Ordering::Greater);
    assert_eq!(compare_versions("1.2.3-beta", "1.2.3"), Ordering::Greater);
    assert_eq!(compare_versions("v1.2.3", "1.2.3"), Ordering::Less);
}

#[test]
fn check_report_states_the_three_outcomes() {
    let newer = check_report("0.1.0", Some("0.2.0"));
    assert_eq!(newer.up_to_date, Some(false));
    assert_eq!(newer.action, "check");
    assert_eq!(
        newer.note,
        "update available (current 0.1.0, latest 0.2.0); rerun with `--yes` to update"
    );
    let same = check_report("0.2.0", Some("0.2.0"));
    assert_eq!(same.up_to_date, Some(true));
    assert_eq!(same.note, "already up to date (current 0.2.0, latest 0.2.0)");
    let offline = check_report("0.2.0", None);
    assert_eq!(offline.latest, None);
    assert_eq!(offline.up_to_date, None);
    assert_eq!(
        offline.note,
        "registry unreachable (offline?); current version 0.2.0, latest unknown — nothing was changed"
    );
}

#[test]
fn update_decision_covers_each_branch() {
    match update_decision("0.1.0", false, Some("0.2.0"), false, true) {
        UpdateDecision::Fail { error, exit } => {
            assert_eq!(exit, 2);
            assert_eq!(error.code(), "INVALID_USAGE");
        }
        _ => panic!("without --yes the update is refused"),
    }
    match update_decision("0.2.0", true, Some("0.2.0"), false, true) {
        UpdateDecision::Report(info) => assert_eq!(info.action, "up-to-date"),
        _ => panic!("an up-to-date binary is reported"),
    }
    match update_decision("0.1.0", true, Some("0.2.0"), true, true) {
        UpdateDecision::Report(info) => {
            assert_eq!(info.method.as_deref(), Some("installer"));
            assert!(info.note.ends_with(INSTALLER_CMD));
        }
        _ => panic!("a dist-managed install is pointed at its installer"),
    }
    match update_decision("0.1.0", true, None, false, true) {
        UpdateDecision::RunCargo { args, display } => {
            assert_eq!(args, vec!["install", "--git", GIT_URL, "--locked"]);
            assert_eq!(display, CARGO_INSTALL_CMD);
        }
        _ => panic!("an unknown latest still updates through cargo"),
    }
    match update_decision("0.1.0", true, Some("0.2.0"), false, false) {
        UpdateDecision::Fail { error, exit } => {
            assert_eq!(exit, 3);
            assert_eq!(error.code(), "MISSING_REQUIRED_TOOL");
        }
        _ => panic!("no cargo, no update"),
    }
}

#[test]
fn cargo_outcome_reports_success_and_failure() {
    match cargo_outcome("0.1.0", Some("0.2.0"), "cargo install x", true) {
        UpdateDecision::Report(info) => assert_eq!(info.note, "updated via `cargo install x`"),
        _ => panic!("success is a report"),
    }
    match cargo_outcome("0.1.0", None, "cargo install x", false) {
        UpdateDecision::Fail { error, exit } => {
            assert_eq!(exit, 5);
            assert_eq!(error.code(), "TOOL_EXECUTION_FAILURE");
            let aicontext::output::AiError::Check { message, .. } = error;
            assert_eq!(message, "`cargo install x` failed; latest known: unknown (offline?)");
        }
        _ => panic!("failure is an error"),
    }
}

#[test]
fn version_order_chains() {
    let chain = ["0.9.0", "0.10.0", "0.10.0-rc1", "1.0", "1.0.0"];
    for i in 0..chain.len() {
        for j in 0..chain.len() {
            let expected = i.cmp(&j);
            assert_eq!(aicontext::self_update::compare_versions(chain[i], chain[j]), expected, "{} vs {}", chain[i], chain[j]);
        }
    }
}
