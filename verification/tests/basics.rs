use aicontext::scan::{cargo_version, seed_version_source, VersionCandidate};
use aicontext::agent::{check_agent, ensure_agents_pointer, legacy_pointer_present, needs_write, pointer_note};
use aicontext::config::{join_path_exec, minimal_consistency, minimal_toml, RepoConfig, CONSISTENCY_HEADER};
use aicontext::order::{sort_strings, str_le};
use aicontext::output::{exit_code_for, AiError};
use aicontext::text::{parse_u64, same_str, trim_string};

#[test]
fn pi_and_opencode_are_the_supported_agents() {
    assert!(check_agent("pi").is_ok());
    assert!(check_agent("opencode").is_ok());
    let AiError::Check { code, message, .. } = check_agent("emacs").unwrap_err();
    assert_eq!(code, "UNSUPPORTED_AGENT");
    assert_eq!(message, "agent 'emacs' is not supported (supported: pi, opencode)");
}

#[test]
fn unknown_agent_fails_closed() {
    let AiError::Check { code, message, .. } = check_agent("vscode").unwrap_err();
    assert_eq!(code, "UNSUPPORTED_AGENT");
    assert!(message.contains("supported: pi, opencode"), "{message}");
}

#[test]
fn agents_pointer_is_appended_once() {
    let (text, changed, note) = ensure_agents_pointer(Some("# Repo"));
    assert!(changed);
    assert_eq!(note, "AGENTS.md pointer appended");
    let text = text.unwrap();
    assert!(text.starts_with("# Repo\n\n## Repository context\n"));
    assert!(legacy_pointer_present(&text));
    let (again, changed, note) = ensure_agents_pointer(Some(&text));
    assert!(again.is_none() && !changed);
    assert_eq!(note, "AGENTS.md pointer already present");
    let (none, changed, _) = ensure_agents_pointer(None);
    assert!(none.is_none() && !changed);
    assert_eq!(pointer_note(Some(&text)), "AGENTS.md pointer left in place; remove it manually if desired");
    assert_eq!(pointer_note(None), "no AGENTS.md pointer found");
    assert!(needs_write(None, "x"));
    assert!(needs_write(Some("y"), "x"));
    assert!(!needs_write(Some("x"), "x"));
}

#[test]
fn seed_manifests_are_deterministic() {
    let toml = minimal_toml("demo", "auto", "package.json");
    assert!(toml.starts_with("schema = \"aicontext/v1\"\n\n[project]\nname = \"demo\"\nprofile = \"auto\"\n"));
    assert!(toml.contains("[version]\nsource = \"package.json\"\n"));
    assert!(toml.ends_with("manifest = \".engineering/consistency.yml\"\n"));
    let none = minimal_consistency(&vec![]);
    assert!(none.starts_with(CONSISTENCY_HEADER));
    assert!(none.contains("  documented: []\n"));
    let some = minimal_consistency(&vec!["test".to_string(), "build".to_string()]);
    assert!(some.contains("  documented:\n    - build\n    - test\nprotected: []\n"), "{some}");
    assert!(some.ends_with("rules: .engineering/rules/ast-grep\n"));
}

#[test]
fn config_paths_and_schema() {
    assert_eq!(join_path_exec("/repo", ".engineering/x"), "/repo/.engineering/x");
    assert_eq!(join_path_exec("/repo/", "a"), "/repo/a");
    assert_eq!(join_path_exec("/repo", "/abs"), "/abs");
    let cfg = RepoConfig::default();
    assert_eq!(cfg.state_path("/r"), "/r/.engineering/PROJECT_STATE.md");
    assert!(cfg.check_schema().is_ok());
    let mut bad = RepoConfig::default();
    bad.schema = "aicontext/v9".to_string();
    match bad.check_schema() {
        Err(m) => assert_eq!(m, "unsupported schema: aicontext/v9"),
        Ok(_) => panic!("an unknown schema is refused"),
    }
}

#[test]
fn exit_codes_and_text_helpers() {
    assert_eq!(exit_code_for("MISSING_REQUIRED_TOOL"), 3);
    assert_eq!(exit_code_for("INVALID_SCOPE"), 5);
    let e = AiError::new("X", "m".to_string(), Some("fix"));
    assert_eq!(e.code(), "X");
    assert_eq!(parse_u64("42"), Some(42));
    assert_eq!(parse_u64("18446744073709551615"), Some(u64::MAX));
    assert_eq!(parse_u64("18446744073709551616"), None);
    assert_eq!(parse_u64(""), None);
    assert_eq!(parse_u64("4x"), None);
    assert_eq!(trim_string("  a b \n"), "a b");
    assert!(same_str("abc", "abc") && !same_str("abc", "abd"));
}

#[test]
fn strings_sort_by_code_point() {
    let sorted = sort_strings(vec!["b".to_string(), "B".to_string(), "a".to_string(), "ab".to_string(), "a".to_string()]);
    assert_eq!(sorted, vec!["B", "a", "a", "ab", "b"]);
    assert!(str_le("a", "ab") && str_le("ab", "ab") && !str_le("b", "a"));
}

#[test]
fn config_off_disables_graph_backends() {
    let toml = minimal_toml("demo", "auto", "package.json");
    assert!(toml.contains("[tools.codebase_memory]\nmode = \"auto\""), "{toml}");
    assert!(toml.contains("[tools.codegraph]\nmode = \"auto\""), "{toml}");
}

#[test]
fn init_detects_cargo_version_source_at_root() {
    let version = cargo_version("[package]\nname = \"demo\"\nversion = \"0.1.0\"\n").unwrap();
    assert_eq!(version, "0.1.0");
    let candidates = vec![VersionCandidate { source: "Cargo.toml".to_string(), version }];
    let source = seed_version_source(&candidates);
    let toml = minimal_toml("demo", "auto", &source);
    assert!(toml.contains("source = \"Cargo.toml\""), "{toml}");
    assert_eq!(seed_version_source(&vec![]), "package.json");
}

#[test]
fn seeded_consistency_ignores_command_order() {
    let a = minimal_consistency(&vec!["test".to_string(), "build".to_string(), "lint".to_string()]);
    let b = minimal_consistency(&vec!["lint".to_string(), "test".to_string(), "build".to_string()]);
    assert_eq!(a, b);
    assert!(a.contains("    - build\n    - lint\n    - test\n"));
}
