use aicontext::config::{RepoConfig, ToolMode};
use aicontext::tools::{
    build_plan, core_tool_names, detect_core_tools, detect_tool, empty_report, fallback_program, find_probe,
    rtk_health, tool_mode, tool_state, PlanFacts, ToolInfo, ToolState,
};
use aicontext::tools_install::recommended_targets;

fn tool(name: &str, version: Option<&str>) -> ToolInfo {
    ToolInfo {
        name: name.to_string(),
        available: version.is_some(),
        version: version.map(|v| v.to_string()),
        managed_by: "external".to_string(),
    }
}

#[test]
fn tools_are_detected_from_probe_answers() {
    assert_eq!(fallback_program("ast-grep"), Some("sg"));
    assert_eq!(fallback_program("rg"), None);
    let sg = detect_tool("ast-grep", None, Some("sg 0.30".to_string()));
    assert!(sg.available);
    assert_eq!(sg.version.as_deref(), Some("sg 0.30"));
    let rg = detect_tool("rg", None, Some("ignored".to_string()));
    assert!(!rg.available);
    assert_eq!(rg.version, None);
    assert_eq!(
        core_tool_names(),
        vec!["git", "ast-grep", "rg", "tgrep", "rtk", "codebase-memory-mcp", "codegraph"]
    );
    let probed = vec![Some("git 2".to_string()), None, None, None, Some("rtk 1".to_string()), None, None];
    let tools = detect_core_tools(probed, Some("sg 1".to_string()));
    assert_eq!(tools.len(), 7);
    assert_eq!(tools[1].name, "ast-grep");
    assert_eq!(tools[1].version.as_deref(), Some("sg 1"));
    assert!(tools[4].available && !tools[6].available);
    assert_eq!(find_probe(&tools, "rtk").map(|t| t.available), Some(true));
    assert!(find_probe(&tools, "knip").is_none());
}

#[test]
fn probe_output_is_normalized_to_a_version() {
    assert_eq!(aicontext::tools::probe_version("ripgrep 14.1.0\n-SIMD -AVX\n"), "ripgrep 14.1.0");
    assert_eq!(aicontext::tools::probe_version("  git version 2.43.0  \r\n"), "git version 2.43.0");
    assert_eq!(aicontext::tools::probe_version(""), "unknown");
    assert_eq!(aicontext::tools::probe_version("   \nsecond line"), "unknown", "only the first line counts");
    let t = detect_tool("tgrep", Some("\n".to_string()), None);
    assert!(t.available);
    assert_eq!(t.version.as_deref(), Some("unknown"));
    let sg = detect_tool("ast-grep", None, Some("ast-grep 0.30.1\n".to_string()));
    assert_eq!(sg.version.as_deref(), Some("ast-grep 0.30.1"));
}

#[test]
fn mode_off_disables_an_installed_tool() {
    let mut cfg = RepoConfig::default();
    cfg.tools.codegraph = ToolMode { mode: "off".to_string() };
    assert_eq!(tool_mode(&cfg, "codegraph"), "off");
    assert_eq!(tool_mode(&cfg, "git"), "auto");
    assert_eq!(tool_state(Some(&cfg), "codegraph", true), ToolState::Disabled);
    assert_eq!(tool_state(Some(&cfg), "tgrep", true), ToolState::Usable);
    assert_eq!(tool_state(None, "codegraph", false), ToolState::Missing);
    assert_eq!(rtk_health(Some(true)), None);
    assert_eq!(rtk_health(None), None);
    assert!(rtk_health(Some(false)).is_some());
}

#[test]
fn plan_json_contract_and_sections() {
    let report = empty_report("/repo");
    let tools = vec![tool("git", Some("git 2"))];
    let facts = PlanFacts { js_ts: false, docs_dir: false, workflows: false, depcruiser_config: None };
    let plan = build_plan(&report, None, &tools, &facts);
    let titles: Vec<&str> = plan.iter().map(|s| s.title.as_str()).collect();
    assert_eq!(titles, vec!["Required", "Core", "Recommended", "Project adapters"]);
    let git = &plan[0].entries[0];
    assert_eq!(git.tool, "git", "plan must include git");
    assert_eq!(git.state, "available");
    assert_eq!(plan[1].entries[0].state, "missing");
    let rec: Vec<&str> = plan[2].entries.iter().map(|e| e.tool.as_str()).collect();
    assert_eq!(rec, vec!["tgrep", "rtk"]);
    assert!(plan[3].entries.is_empty());
}

#[test]
fn plan_lists_dependency_cruiser_for_js() {
    let mut report = empty_report("/repo");
    report.complexity.profile = "large".to_string();
    let mut cfg = RepoConfig::default();
    cfg.tools.rtk = ToolMode { mode: "off".to_string() };
    let facts = PlanFacts {
        js_ts: true,
        docs_dir: true,
        workflows: true,
        depcruiser_config: Some(".dependency-cruiser.json".to_string()),
    };
    let plan = build_plan(&report, Some(&cfg), &vec![], &facts);
    let rec: Vec<&str> = plan[2].entries.iter().map(|e| e.tool.as_str()).collect();
    assert_eq!(rec, vec!["tgrep", "rtk", "codebase-memory-mcp", "codegraph"]);
    assert_eq!(plan[2].entries[1].state, "disabled");
    let adapters: Vec<&str> = plan[3].entries.iter().map(|e| e.tool.as_str()).collect();
    assert_eq!(adapters, vec!["knip", "dependency-cruiser", "lychee", "zizmor"]);
    assert!(plan[3].entries[1].reason.starts_with("boundaries configured (.dependency-cruiser.json)"));
    let targets = recommended_targets(&plan);
    assert_eq!(targets, vec!["tgrep", "codebase-memory-mcp", "codegraph", "lychee", "zizmor"]);
}

#[test]
fn status_search_labels_follow_the_probes() {
    let tool = |name: &str, available: bool| aicontext::tools::ToolInfo {
        name: name.to_string(),
        available,
        version: None,
        managed_by: "system".to_string(),
    };
    assert_eq!(
        aicontext::tools::search_backend_labels(&vec![]),
        ("rg/git-grep fallback", "unavailable (reduced capability)", "degraded to text")
    );
    let tools = vec![tool("tgrep", true), tool("ast-grep", false), tool("codebase-memory-mcp", false), tool("codegraph", true)];
    assert_eq!(
        aicontext::tools::search_backend_labels(&tools),
        ("tgrep ✓", "unavailable (reduced capability)", "codegraph ✓")
    );
}
