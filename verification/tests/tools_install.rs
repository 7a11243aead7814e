use aicontext::tools::{PlanEntry, PlanSection};
use aicontext::tools_install::{
    first_unknown, install_note_exec, is_global_adapter_exec, method_for, missing_cargo, plan_lines,
    recommended_targets, record_install, registry_path, requested_tools, split_requested, ManagedTool, Method,
    Registry, GLOBAL_ADAPTERS,
};

fn plan_entry(tool: &str, state: &str) -> PlanEntry {
    PlanEntry {
        tool: tool.to_string(),
        level: "recommended".to_string(),
        state: state.to_string(),
        reason: "why".to_string(),
        version: None,
        install: None,
    }
}

fn managed(name: &str, version: &str) -> ManagedTool {
    ManagedTool {
        name: name.to_string(),
        version: version.to_string(),
        method: "cargo".to_string(),
        path: format!("/p/bin/{name}"),
        installed_at: 1,
        managed_by: "aicontext".to_string(),
    }
}

#[test]
fn method_table_covers_plan_surface() {
    for tool in ["ast-grep", "tgrep", "rtk", "codegraph", "lychee", "zizmor", "knip", "dependency-cruiser"] {
        assert!(method_for(tool).is_some(), "{tool} needs a method");
    }
    assert!(method_for("no-such-tool").is_none());
    for tool in ["knip", "dependency-cruiser"] {
        assert!(
            matches!(method_for(tool), Some(Method::ProjectLocal { .. })),
            "{tool} must stay project-local"
        );
    }
    assert!(GLOBAL_ADAPTERS.contains(&"lychee"));
}

#[test]
fn global_adapters_are_exactly_lychee_and_zizmor() {
    assert!(is_global_adapter_exec("lychee"));
    assert!(is_global_adapter_exec("zizmor"));
    assert!(!is_global_adapter_exec("knip"));
    assert!(!is_global_adapter_exec("dependency-cruiser"));
    assert_eq!(registry_path("/opt/aic"), "/opt/aic/managed-tools.json");
}

#[test]
fn recommended_targets_skip_project_local_adapters() {
    let plan = vec![
        PlanSection { title: "Core".to_string(), entries: vec![plan_entry("rg", "missing")] },
        PlanSection {
            title: "Recommended".to_string(),
            entries: vec![plan_entry("tgrep", "missing"), plan_entry("rtk", "available")],
        },
        PlanSection {
            title: "Project adapters".to_string(),
            entries: vec![
                plan_entry("knip", "missing"),
                plan_entry("lychee", "missing"),
                plan_entry("zizmor", "available"),
            ],
        },
    ];
    assert_eq!(recommended_targets(&plan), vec!["tgrep", "lychee"]);
}

#[test]
fn requested_tools_needs_a_name_or_recommended() {
    let named = requested_tools(Some("lychee".to_string()), true, vec!["x".to_string()]).unwrap();
    assert_eq!(named, vec!["lychee"]);
    let rec = requested_tools(None, true, vec!["a".to_string(), "b".to_string()]).unwrap();
    assert_eq!(rec, vec!["a", "b"]);
    let err = requested_tools(None, false, vec![]).unwrap_err();
    assert_eq!(err.code(), "INVALID_USAGE");
}

#[test]
fn first_unknown_names_the_first_bad_tool() {
    let ok = vec!["lychee".to_string(), "knip".to_string()];
    assert!(first_unknown(&ok).is_none());
    let bad = vec!["lychee".to_string(), "nope".to_string(), "zzz".to_string()];
    let e = first_unknown(&bad).expect("unknown tool");
    assert_eq!(e.code(), "UNKNOWN_TOOL");
    let aicontext::output::AiError::Check { message, .. } = e;
    assert_eq!(message, "unknown tool 'nope' (see `aicontext tools plan`)");
}

#[test]
fn split_requested_sorts_by_disposition() {
    let requested: Vec<String> = ["ast-grep", "lychee", "tgrep", "knip", "mystery"].iter().map(|s| s.to_string()).collect();
    let present = vec![true, false, false, false, false];
    let split = split_requested(&requested, &present);
    assert_eq!(split.already_present, vec!["ast-grep"]);
    assert_eq!(split.installable.len(), 1);
    assert_eq!(split.installable[0].name, "lychee");
    assert_eq!(split.installable[0].package, "lychee");
    let skipped: Vec<(&str, &str)> = split.skipped.iter().map(|s| (s.tool.as_str(), s.reason.as_str())).collect();
    assert_eq!(skipped.len(), 3);
    assert_eq!(skipped[0].0, "tgrep");
    assert!(skipped[0].1.starts_with("no safe managed install; manual steps: "));
    assert_eq!(skipped[1].0, "knip");
    assert!(skipped[1].1.contains("never touches manifests"));
    assert_eq!(skipped[2], ("mystery", "unknown tool"));
    assert_eq!(plan_lines(&split.installable), vec!["lychee via cargo install lychee --locked"]);
}

#[test]
fn record_install_keeps_one_entry_per_tool() {
    let mut reg = Registry::default();
    assert!(reg.tools.is_empty());
    record_install(&mut reg, managed("lychee", "0.1"));
    record_install(&mut reg, managed("zizmor", "1.0"));
    record_install(&mut reg, managed("lychee", "0.2"));
    let names: Vec<&str> = reg.tools.iter().map(|t| t.name.as_str()).collect();
    assert_eq!(names, vec!["zizmor", "lychee"]);
    assert_eq!(reg.tools[1].version, "0.2");
}

#[test]
fn install_note_and_missing_cargo() {
    assert_eq!(
        install_note_exec(true, true, false, false, "/b").as_deref(),
        Some("nothing to install: no recommended tools are missing")
    );
    assert_eq!(install_note_exec(false, true, false, false, "/b"), None);
    assert_eq!(
        install_note_exec(false, false, false, false, "/b").as_deref(),
        Some("declined by user; nothing was installed")
    );
    assert_eq!(
        install_note_exec(false, false, true, true, "/b").as_deref(),
        Some("installed to /b. Add it to PATH to use the managed tools.")
    );
    assert_eq!(install_note_exec(false, false, true, false, "/b"), None);
    assert_eq!(missing_cargo().code(), "MISSING_REQUIRED_TOOL");
}

#[test]
fn project_local_adapters_never_touch_manifests() {
    let requested = requested_tools(Some("knip".to_string()), false, vec![]).expect("knip is a known tool");
    let split = split_requested(&requested, &vec![false]);
    assert_eq!(split.skipped[0].tool, "knip");
    assert!(split.skipped[0].reason.contains("never touches manifests"), "{}", split.skipped[0].reason);
    assert!(split.installable.is_empty(), "a project-local adapter is never installed");
}

#[test]
fn install_method_and_exit_code() {
    assert_eq!(aicontext::tools_install::install_method("ast-grep"), "cargo install ast-grep --locked");
    assert_eq!(aicontext::tools_install::install_exit_code(true), 5);
    assert_eq!(aicontext::tools_install::install_exit_code(false), 0);
}
