use aicontext::config::RepoConfig;
use aicontext::doctor::{
    doctor_exit_code, path_ref_candidates, run_doctor, tgrep_status_summary, DoctorFacts, InstalledSkill, Status,
    TgrepIndex,
};
use aicontext::engineering::EngineeringDetection;
use aicontext::scan::ComplexityInfo;
use aicontext::state::render_project_state;
use aicontext::tools::ToolInfo;

fn tool(name: &str, version: Option<&str>) -> ToolInfo {
    ToolInfo {
        name: name.to_string(),
        available: version.is_some(),
        version: version.map(|v| v.to_string()),
        managed_by: "external".to_string(),
    }
}

fn healthy() -> DoctorFacts {
    DoctorFacts {
        version: "0.4.0".to_string(),
        git: tool("git", Some("git version 2.43")),
        config: Ok(RepoConfig::default()),
        state_text: Some(render_project_state("g\n", None)),
        patterns_exists: true,
        broken_refs: vec![],
        consistency: Some(Some("aicontext/consistency/v1".to_string())),
        sg: tool("ast-grep", Some("ast-grep 0.30")),
        skill: Some(InstalledSkill { body: "SKILL".to_string(), version: Some("0.4.0".to_string()) }),
        opencode_skill: Some(InstalledSkill { body: "SKILL".to_string(), version: Some("0.4.0".to_string()) }),
        skill_body: "SKILL".to_string(),
        rtk: None,
        tgrep: TgrepIndex::Absent,
        complexity: None,
        cbm_available: false,
        codegraph_available: false,
        engineering: EngineeringDetection::Absent,
    }
}

#[test]
fn doctor_healthy_json_contract() {
    let diags = run_doctor(&healthy());
    let names: Vec<&str> = diags.iter().map(|d| d.name.as_str()).collect();
    for expected in ["cli", "git", "config", "state markers", "ast-grep"] {
        assert!(names.contains(&expected), "missing diagnostic {expected}");
    }
    assert_eq!(
        names,
        vec!["cli", "git", "config", "state markers", "patterns refs", "consistency", "ast-grep", "skill", "skill.opencode"]
    );
    assert!(diags.iter().all(|d| d.status == Status::Pass), "{diags:?}");
    assert_eq!(diags[0].detail, "aicontext 0.4.0");
    assert_eq!(diags[7].detail, "aicontext-adopt up to date for pi (v0.4.0)");
    assert_eq!(diags[8].detail, "aicontext-adopt up to date for opencode (v0.4.0)");
    assert_eq!(doctor_exit_code(&diags), 0);
}

#[test]
fn doctor_flags_uninitialized_with_remediation() {
    let facts = DoctorFacts { config: Err("missing .engineering/aicontext.toml".to_string()), ..healthy() };
    let diags = run_doctor(&facts);
    let config = diags.iter().find(|d| d.name == "config").expect("doctor must include a config diagnostic");
    assert_eq!(config.status, Status::Fail);
    assert!(config.remediation.as_deref().unwrap_or("").contains("init"), "remediation must point at init");
    assert_eq!(doctor_exit_code(&diags), 1);
}

#[test]
fn doctor_warnings_never_fail() {
    let facts = DoctorFacts {
        sg: tool("ast-grep", None),
        skill: None,
        broken_refs: vec!["docs/gone.md".to_string()],
        tgrep: TgrepIndex::NotInstalled,
        complexity: Some(ComplexityInfo {
            profile: "large".to_string(),
            source_files: 900,
            loc: 200000,
            workspaces: 0,
            languages: 3,
            reason: "900 source files".to_string(),
        }),
        engineering: EngineeringDetection::Unsupported { reason: "x".to_string(), manifest_version: None, map_version: None },
        ..healthy()
    };
    let diags = run_doctor(&facts);
    let names: Vec<&str> = diags.iter().map(|d| d.name.as_str()).collect();
    assert_eq!(
        names,
        vec![
            "cli", "git", "config", "state markers", "patterns refs", "consistency", "ast-grep", "skill",
            "skill.opencode", "tgrep index", "graph backend", "engineering"
        ]
    );
    assert!(diags.iter().all(|d| d.status != Status::Fail), "{diags:?}");
    assert_eq!(diags[4].detail, "1 broken reference(s): docs/gone.md");
    assert_eq!(diags[10].detail, "large repo (900 source files), no graph backend — impact queries degraded");
    assert_eq!(doctor_exit_code(&diags), 0);
}

#[test]
fn doctor_reports_skill_drift_and_rtk_failures() {
    let facts = DoctorFacts {
        skill: Some(InstalledSkill { body: "OLD".to_string(), version: None }),
        rtk: Some(Some("`rtk gain` failed".to_string())),
        tgrep: TgrepIndex::Status(Some("12 files indexed, server: running".to_string())),
        ..healthy()
    };
    let diags = run_doctor(&facts);
    let skill = diags.iter().find(|d| d.name == "skill").unwrap();
    assert_eq!(skill.status, Status::Warn);
    assert_eq!(skill.detail, "installed skill differs from this binary (installed: unmanaged, binary: v0.4.0)");
    let rtk = diags.iter().find(|d| d.name == "rtk").unwrap();
    assert_eq!(rtk.status, Status::Fail);
    let tgrep = diags.iter().find(|d| d.name == "tgrep index").unwrap();
    assert_eq!(tgrep.status, Status::Pass);
    assert_eq!(doctor_exit_code(&diags), 1);
}

#[test]
fn pattern_references_and_tgrep_status_are_read() {
    let patterns = "# Patterns\nreferences:\n  - src/lib.rs\n  - not a path\n  # comment\n  - docs/\nstatus:\n- other.md\n";
    assert_eq!(path_ref_candidates(patterns), vec!["src/lib.rs".to_string(), "docs/".to_string()]);
    assert_eq!(
        tgrep_status_summary("Index: .tgrep\nFiles: 12\nServer: running\n").as_deref(),
        Some("12 files indexed, server: running")
    );
    assert_eq!(tgrep_status_summary("Files: 12\n"), None);
}

#[test]
fn doctor_reports_the_opencode_skill_as_its_own_diagnostic() {
    let nothing = DoctorFacts { skill: None, opencode_skill: None, ..healthy() };
    let diags = run_doctor(&nothing);
    let pi = diags.iter().find(|d| d.name == "skill").unwrap();
    assert_eq!(pi.status, Status::Warn);
    assert!(pi.remediation.as_deref().unwrap_or("").contains("agent install pi"));
    let oc = diags.iter().find(|d| d.name == "skill.opencode").unwrap();
    assert_eq!(oc.status, Status::Warn);
    assert!(oc.detail.contains("not installed for opencode"), "{oc:?}");
    assert!(oc.remediation.as_deref().unwrap_or("").contains("agent install opencode"), "{oc:?}");
    assert_eq!(doctor_exit_code(&diags), 0);

    let installed = DoctorFacts {
        skill: None,
        opencode_skill: Some(InstalledSkill { body: "SKILL".to_string(), version: Some("0.4.0".to_string()) }),
        ..healthy()
    };
    let diags = run_doctor(&installed);
    let oc = diags.iter().find(|d| d.name == "skill.opencode").unwrap();
    assert_eq!(oc.status, Status::Pass);
    assert!(oc.detail.contains("up to date for opencode"), "{oc:?}");
    let pi = diags.iter().find(|d| d.name == "skill").unwrap();
    assert_eq!(pi.status, Status::Warn, "pi must stay independent");
    assert_eq!(doctor_exit_code(&diags), 0);
}
