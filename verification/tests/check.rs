use aicontext::check::{
    absent_from_exec, check_commands, check_consistency, check_exit_code, command_diff, current_generated,
    distinct_sorted_exec, has_state_markers, missing_paths_exec, not_initialized, projection_check, projection_unsafe,
    resolve_version, rule_outcome, rules_verdict, run_check, CheckFacts, Finding, ProjectionFile, RuleOutcome,
};
use aicontext::check::{manifest_routing, manifest_shape, ManifestRead};
use aicontext::state::SubprojectEntry;
use aicontext::config::{
    AstGrepChecks, ConsistencyChecks, ConsistencyCommands, ConsistencyFile, ConsistencyVersion, RepoConfig,
};
use aicontext::engineering::{EngineeringDetection, EngineeringInfo, EngineeringSurface};
use aicontext::scan::VersionCandidate;
use aicontext::state::render_project_state;
use aicontext::tools::ToolInfo;

fn strings(v: &[&str]) -> Vec<String> {
    v.iter().map(|s| s.to_string()).collect()
}

fn consistency(projections: &[&str], protected: &[&str]) -> ConsistencyFile {
    ConsistencyFile {
        schema: "aicontext/consistency/v1".to_string(),
        version: ConsistencyVersion { source: "package.json".to_string(), projections: strings(projections) },
        commands: ConsistencyCommands { documented: vec![] },
        protected: strings(protected),
        checks: ConsistencyChecks { ast_grep: AstGrepChecks { rules: ".aicontext/rules".to_string() } },
        adapters: vec![],
    }
}

fn tool(name: &str, version: Option<&str>) -> ToolInfo {
    ToolInfo {
        name: name.to_string(),
        available: version.is_some(),
        version: version.map(|v| v.to_string()),
        managed_by: "external".to_string(),
    }
}

#[test]
fn missing_projection_file_fails() {
    let cons = consistency(&["docs/NOPE.md"], &[]);
    let results = vec![projection_check("docs/NOPE.md", "1.2.3", &ProjectionFile::Missing)];
    let (passed, detail) = check_consistency(".engineering/consistency.yml", &cons, true, Some("1.2.3"), &results, &vec![]);
    assert!(!passed, "missing projection target must fail: {detail}");
    assert_eq!(
        detail,
        ".engineering/consistency.yml: projections failing: docs/NOPE.md (missing file); no protected paths declared"
    );
}

#[test]
fn consistency_passes_when_every_declaration_holds() {
    let cons = consistency(&["README.md"], &["LICENSE", "docs"]);
    let results = vec![projection_check("README.md", "1.2.3", &ProjectionFile::Text("version 1.2.3".to_string()))];
    let (passed, detail) = check_consistency("c.yml", &cons, true, Some("1.2.3"), &results, &vec![true, true]);
    assert!(passed, "{detail}");
    assert_eq!(detail, "c.yml: 1 projection(s) carry 1.2.3; 2 protected path(s) present");
    let (passed, detail) = check_consistency("c.yml", &cons, true, None, &vec![], &vec![true, false]);
    assert!(!passed);
    assert_eq!(detail, "c.yml: cannot resolve version from package.json; protected missing: docs");
    let empty = consistency(&[], &[]);
    let (passed, detail) = check_consistency("c.yml", &empty, false, None, &vec![], &vec![]);
    assert!(passed);
    assert_eq!(detail, "c.yml: no projections declared; no protected paths declared");
}

#[test]
fn projection_checks_reject_unsafe_and_unreadable_files() {
    assert!(projection_unsafe("/etc/passwd"));
    assert!(projection_unsafe("../x"));
    assert!(!projection_unsafe("docs/a.md"));
    assert_eq!(projection_check("../x", "1", &ProjectionFile::Text("1".to_string())), Err("unsafe path".to_string()));
    assert_eq!(projection_check("a", "1", &ProjectionFile::NotFile), Err("not a file".to_string()));
    assert_eq!(projection_check("a", "1", &ProjectionFile::TooLarge), Err("file too large to verify".to_string()));
    assert_eq!(projection_check("a", "1", &ProjectionFile::Unreadable), Err("unreadable".to_string()));
    assert_eq!(projection_check("a", "2.0", &ProjectionFile::Text("1.0".to_string())), Err("does not contain 2.0".to_string()));
    assert_eq!(projection_check("a", "1.0", &ProjectionFile::Text("v1.0".to_string())), Ok(()));
    let c = vec![
        VersionCandidate { source: "Cargo.toml".to_string(), version: "0.3.0".to_string() },
        VersionCandidate { source: "package.json".to_string(), version: "1.0.0".to_string() },
    ];
    assert_eq!(resolve_version(&c, "package.json").as_deref(), Some("1.0.0"));
    assert_eq!(resolve_version(&c, "go.mod"), None);
    assert_eq!(missing_paths_exec(&strings(&["a", "b", "c"]), &vec![true, false, false]), strings(&["b", "c"]));
}

#[test]
fn commands_must_match_exactly() {
    let actual = strings(&["test", "build", "test"]);
    let documented = strings(&["build", "lint"]);
    let (und, stale) = command_diff(&actual, &documented);
    assert_eq!(und, strings(&["test"]));
    assert_eq!(stale, strings(&["lint"]));
    let (ok, detail) = check_commands(true, &actual, &documented, &strings(&["README.md"]));
    assert!(!ok);
    assert_eq!(
        detail,
        "undocumented: test — declare in consistency.yml; stale: lint — remove from consistency.yml; still mentioned in: README.md"
    );
    let (ok, detail) = check_commands(true, &actual, &strings(&["build", "test"]), &vec![]);
    assert!(ok);
    assert_eq!(detail, "2 command(s) verified: build, test");
    assert_eq!(check_commands(true, &vec![], &vec![], &vec![]), (true, "no scripts detected, none documented".to_string()));
    assert_eq!(check_commands(false, &vec![], &vec![], &vec![]).1, "scan failed: cannot verify commands");
    assert_eq!(distinct_sorted_exec(&strings(&["b", "a", "b"])), strings(&["a", "b"]));
    assert_eq!(absent_from_exec(&strings(&["a", "b", "c"]), &strings(&["b"])), strings(&["a", "c"]));
}

#[test]
fn structural_rules_verdicts() {
    let matches = Some(vec![
        ("src/a.ts".to_string(), "error".to_string()),
        ("src/b.ts".to_string(), "warning".to_string()),
        ("src/a.ts".to_string(), "error".to_string()),
    ]);
    let v = rule_outcome(&matches, false, "");
    assert!(matches!(&v, RuleOutcome::Violations(s) if s == "2 error(s), 1 warning(s) in src/a.ts, src/b.ts"));
    assert!(matches!(rule_outcome(&Some(vec![]), false, ""), RuleOutcome::Clean));
    assert!(matches!(rule_outcome(&None, true, "x"), RuleOutcome::Clean));
    assert!(matches!(&rule_outcome(&None, false, "  bad rule \n"), RuleOutcome::Error(s) if s == "rule failed to run: bad rule"));
    assert_eq!(
        rules_verdict(".aicontext/rules", 0, false, &vec![]),
        (true, "no rules in .aicontext/rules — nothing to enforce".to_string())
    );
    assert!(!rules_verdict("r", 2, false, &vec![]).0);
    let outcomes = vec![("no-any.yml".to_string(), v), ("ok.yml".to_string(), RuleOutcome::Clean)];
    let (ok, detail) = rules_verdict("r", 2, true, &outcomes);
    assert!(!ok);
    assert_eq!(detail, "1 violation(s): no-any.yml: 2 error(s), 1 warning(s) in src/a.ts, src/b.ts");
    let clean = vec![("ok.yml".to_string(), RuleOutcome::Clean)];
    assert_eq!(rules_verdict("r", 1, true, &clean), (true, "1 rule(s) executed, no violations".to_string()));
}

#[test]
fn check_findings_cover_every_gate_in_order() {
    let generated = "Last synchronized commit: abc\nComplexity: small\n";
    let state = render_project_state(generated, None);
    assert!(has_state_markers(&state));
    assert!(!has_state_markers("# nothing"));
    assert_eq!(current_generated(&state), "Last synchronized commit: abc\nComplexity: small");
    let facts = CheckFacts {
        config: Ok(RepoConfig::default()),
        state_text: Some(state),
        fresh: Ok("Last synchronized commit: def\nComplexity: small\n".to_string()),
        version_source_exists: true,
        commands: Ok((true, "no scripts detected, none documented".to_string())),
        consistency: (true, "c.yml: fine".to_string()),
        patterns_exists: true,
        rules: (true, "no rules".to_string()),
        git: tool("git", Some("git version 2.43")),
        sg: tool("ast-grep", None),
        adapters: vec![Finding { name: "adapter:knip".to_string(), passed: true, detail: "[ok] knip".to_string() }],
        engineering: EngineeringDetection::Absent,
        missing_surfaces: vec![],
        subprojects_manifest: ManifestRead::Absent,
        detected_subprojects: vec![],
        routing_present: false,
        nested_contexts: vec![],
    };
    let findings = run_check(&facts);
    let names: Vec<&str> = findings.iter().map(|f| f.name.as_str()).collect();
    assert_eq!(
        names,
        vec![
            "schema", "state", "freshness", "version", "commands", "consistency", "patterns references",
            "structural rules", "required tools", "ast-grep", "engineering", "subprojects",
            "subprojects routing", "adapter:knip"
        ]
    );
    assert!(findings.iter().all(|f| f.passed), "{findings:?}");
    assert_eq!(findings[2].detail, "synchronized");
    assert_eq!(findings[9].detail, "absent — structural search degraded");
    assert!(findings[10].detail.contains("standalone"), "{:?}", findings[10]);
    assert_eq!(check_exit_code(&findings), 0);

    let stale = CheckFacts { fresh: Ok("Complexity: large\n".to_string()), ..facts };
    let findings = run_check(&stale);
    assert!(!findings[2].passed);
    assert_eq!(findings[2].detail, "STALE_PROJECT_STATE: run `aicontext sync`");
    assert_eq!(check_exit_code(&findings), 1);
}

#[test]
fn check_without_manifest_reports_schema_and_fails() {
    let facts = CheckFacts {
        config: Err("missing .engineering/aicontext.toml".to_string()),
        state_text: None,
        fresh: Err("no scan".to_string()),
        version_source_exists: false,
        commands: Err("no manifest".to_string()),
        consistency: (false, String::new()),
        patterns_exists: false,
        rules: (true, "no rules".to_string()),
        git: tool("git", None),
        sg: tool("ast-grep", Some("0.1")),
        adapters: vec![],
        engineering: EngineeringDetection::Absent,
        missing_surfaces: vec![],
        subprojects_manifest: ManifestRead::Absent,
        detected_subprojects: vec![],
        routing_present: false,
        nested_contexts: vec![],
    };
    let findings = run_check(&facts);
    let names: Vec<&str> = findings.iter().map(|f| f.name.as_str()).collect();
    assert_eq!(names, vec![
            "schema", "structural rules", "required tools", "ast-grep", "engineering", "subprojects", "subprojects routing"
        ]);
    assert_eq!(findings[2].detail, "git missing");
    assert!(!findings[2].passed);
    assert_eq!(check_exit_code(&findings), 1);
    assert_eq!(not_initialized().code(), "NOT_INITIALIZED");
}

#[test]
fn stale_mentions_keep_the_first_five_docs_sorted() {
    let names = vec!["npm run legacy".to_string()];
    let doc = |p: &str, t: &str| (p.to_string(), t.to_string());
    let docs = vec![
        doc("docs/z.md", "use npm run legacy here"),
        doc("README.md", "nothing stale"),
        doc("docs/b.md", "npm run legacy"),
        doc("docs/a.md", "x npm run legacy y"),
        doc("docs/c.md", "npm run legacy"),
        doc("docs/d.md", "npm run legacy"),
        doc("docs/e.md", "npm run legacy"),
    ];
    assert_eq!(
        aicontext::check::stale_mentions(&docs, &names),
        vec!["docs/a.md", "docs/b.md", "docs/c.md", "docs/d.md", "docs/z.md"]
    );
    assert!(aicontext::check::stale_mentions(&docs, &vec![]).is_empty());
}

#[test]
fn ast_grep_output_span_and_blank() {
    assert!(aicontext::check::blank_output(&b" \n\t\r".to_vec()));
    assert!(!aicontext::check::blank_output(&b" [] ".to_vec()));
    assert_eq!(aicontext::check::bracket_span(&b"warn: x\n[{\"a\":1}]\ntrailer".to_vec()), Some((8, 16)));
    assert_eq!(aicontext::check::bracket_span(&b"no array".to_vec()), None);
    assert_eq!(aicontext::check::bracket_span(&b"] then [".to_vec()), None);
}

fn engineering_info(recipe: &str, paths: &[&str]) -> EngineeringInfo {
    EngineeringInfo {
        project: "demo".to_string(),
        recipe: recipe.to_string(),
        recipe_version: None,
        catalog_version: "1.1.0".to_string(),
        database_profile: None,
        plan_fingerprint: "abc123".to_string(),
        surfaces: paths
            .iter()
            .map(|p| EngineeringSurface {
                surface: format!("s-{p}"),
                path: p.to_string(),
                provider: "mystery-bp".to_string(),
                instructions: format!("{p}/AGENTS.md"),
            })
            .collect(),
        manifest_schema_version: 2,
        map_schema_version: 1,
        provenance_present: true,
    }
}

fn engineering_facts(engineering: EngineeringDetection, missing: &[&str]) -> CheckFacts {
    CheckFacts {
        config: Ok(RepoConfig::default()),
        state_text: None,
        fresh: Err("no scan".to_string()),
        version_source_exists: true,
        commands: Err("no manifest".to_string()),
        consistency: (false, String::new()),
        patterns_exists: true,
        rules: (true, "no rules".to_string()),
        git: tool("git", Some("git version 2.43")),
        sg: tool("ast-grep", None),
        adapters: vec![],
        engineering,
        missing_surfaces: strings(missing),
        subprojects_manifest: ManifestRead::Absent,
        detected_subprojects: vec![],
        routing_present: false,
        nested_contexts: vec![],
    }
}

#[test]
fn filesystem_drift_is_reported() {
    let info = engineering_info("GP-99", &["frontend", "backend"]);
    let present = run_check(&engineering_facts(EngineeringDetection::Supported(info.clone()), &[]));
    let eng = present.iter().find(|f| f.name == "engineering").unwrap();
    assert!(eng.passed, "{eng:?}");
    assert!(eng.detail.contains("GP-99"));

    let drifted = run_check(&engineering_facts(EngineeringDetection::Supported(info), &["backend"]));
    let eng = drifted.iter().find(|f| f.name == "engineering").unwrap();
    assert!(!eng.passed, "drift must fail check");
    assert!(eng.detail.contains("backend"), "{eng:?}");
    assert_eq!(check_exit_code(&drifted), 1);
}

#[test]
fn unsupported_contracts_fail_the_engineering_finding() {
    let unsupported = EngineeringDetection::Unsupported {
        reason: "project.json schema_version 99 unsupported".to_string(),
        manifest_version: Some("99".to_string()),
        map_version: Some("1".to_string()),
    };
    let findings = run_check(&engineering_facts(unsupported, &[]));
    let eng = findings.iter().find(|f| f.name == "engineering").unwrap();
    assert!(!eng.passed);
    let standalone = run_check(&engineering_facts(EngineeringDetection::Absent, &[]));
    let eng = standalone.iter().find(|f| f.name == "engineering").unwrap();
    assert!(eng.passed && eng.detail.contains("standalone"));
}

fn entry(path: &str, purpose: &str, status: &str) -> SubprojectEntry {
    SubprojectEntry { path: path.to_string(), purpose: purpose.to_string(), status: status.to_string() }
}

fn seeded(entries: Vec<SubprojectEntry>) -> ManifestRead {
    ManifestRead::Parsed { schema: "aicontext/subprojects/v1".to_string(), unknown_keys: vec![], entries }
}

fn detected() -> Vec<String> {
    strings(&["apps/mobile", "apps/web", "services/api"])
}

fn all_pending() -> Vec<SubprojectEntry> {
    vec![entry("apps/mobile", "", "pending"), entry("apps/web", "", "pending"), entry("services/api", "", "pending")]
}

#[test]
fn converged_monorepo_passes_routing_gates() {
    let f = manifest_routing(&detected(), &seeded(all_pending()), true, &vec![false; 3]);
    assert!(f.passed, "{f:?}");
    assert!(f.detail.contains("routing block present"), "{}", f.detail);
    assert!(f.detail.contains("pending (advisory)"), "{}", f.detail);
    let shape = manifest_shape(&seeded(all_pending()));
    assert!(shape.passed);
    assert!(shape.detail.contains("3 subproject(s) validated"), "{}", shape.detail);
}

#[test]
fn missing_routing_block_fails_with_init_remediation() {
    let f = manifest_routing(&detected(), &seeded(all_pending()), false, &vec![false; 3]);
    assert!(!f.passed);
    assert!(f.detail.contains("aicontext init"), "{}", f.detail);
}

#[test]
fn undetected_entry_addition_fails_as_missing() {
    let mut found = detected();
    found.push("apps/extra".to_string());
    let f = manifest_routing(&found, &seeded(all_pending()), true, &vec![false; 3]);
    assert!(!f.passed);
    assert!(f.detail.contains("apps/extra") && f.detail.contains("status: pending"), "{}", f.detail);
}

#[test]
fn stale_manifest_entry_fails() {
    let mut entries = all_pending();
    entries.push(entry("apps/ghost", "", "pending"));
    let f = manifest_routing(&detected(), &seeded(entries), true, &vec![false; 4]);
    assert!(!f.passed);
    assert!(f.detail.contains("apps/ghost"), "{}", f.detail);
}

#[test]
fn adopted_without_nested_context_fails_closed() {
    let entries = vec![entry("apps/mobile", "", "pending"), entry("apps/web", "Web app", "adopted"), entry("services/api", "", "pending")];
    let hollow = manifest_routing(&detected(), &seeded(entries.clone()), true, &vec![false; 3]);
    assert!(!hollow.passed);
    assert!(hollow.detail.contains("apps/web") && hollow.detail.contains("aicontext.toml"), "{}", hollow.detail);
    let grounded = manifest_routing(&detected(), &seeded(entries), true, &vec![false, true, false]);
    assert!(grounded.passed, "{grounded:?}");
    assert!(grounded.detail.contains("adopted: 1"), "{}", grounded.detail);
}

#[test]
fn single_project_has_no_routing_gates() {
    let f = manifest_routing(&strings(&["apps/web"]), &ManifestRead::Absent, false, &vec![]);
    assert!(f.passed);
    assert!(f.detail.contains("fewer than 2"), "{}", f.detail);
    let shape = manifest_shape(&ManifestRead::Absent);
    assert!(shape.passed && shape.detail.contains("nothing to validate"), "{}", shape.detail);
}

#[test]
fn absent_manifest_with_subprojects_fails_with_seed_remediation() {
    let f = manifest_routing(&detected(), &ManifestRead::Absent, true, &vec![]);
    assert!(!f.passed);
    assert!(f.detail.contains("aicontext init"), "{}", f.detail);
}

#[test]
fn check_rejects_unknown_status_and_keys() {
    let mut entries = all_pending();
    entries[0].status = "done".to_string();
    let bad = manifest_shape(&seeded(entries));
    assert!(!bad.passed);
    assert!(bad.detail.contains("apps/mobile") && bad.detail.contains("pending or adopted"), "{}", bad.detail);
    let unknown = manifest_shape(&ManifestRead::Parsed {
        schema: "aicontext/subprojects/v1".to_string(),
        unknown_keys: strings(&["apps/web.owner"]),
        entries: all_pending(),
    });
    assert!(!unknown.passed && unknown.detail.contains("unknown"), "{}", unknown.detail);
    let unparseable = manifest_shape(&ManifestRead::Unparseable("did not find expected node".to_string()));
    assert!(!unparseable.passed);
    let future = manifest_shape(&ManifestRead::Parsed {
        schema: "aicontext/subprojects/v9".to_string(),
        unknown_keys: strings(&["extra"]),
        entries: vec![],
    });
    assert!(future.passed, "a future schema is skipped without blocking");
}
