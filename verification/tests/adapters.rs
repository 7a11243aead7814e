use aicontext::adapters::{
    applicable_adapters, classify, depcruiser_config_name, depcruiser_counter_summary, depcruiser_summary,
    is_known_adapter, knip_summary, lychee_applicable, lychee_inputs, lychee_summary, md_file_count, run_all, truncate,
    zizmor_summary, AdapterOutcome, RunEvidence,
};
use aicontext::check::check_adapters;
use aicontext::config::AdapterPolicy;
use aicontext::scan::LanguageStat;
use aicontext::tools::empty_report;

fn policy(name: &str, p: &str) -> AdapterPolicy {
    AdapterPolicy { name: name.to_string(), policy: p.to_string() }
}

fn outcome(tool: &'static str, state: &str, detail: &str) -> AdapterOutcome {
    AdapterOutcome { tool, state: state.to_string(), detail: detail.to_string() }
}

fn knip_counts(files: u64, exports: u64) -> Vec<u64> {
    let mut c = vec![0u64; 15];
    c[0] = files;
    c[5] = exports;
    c
}

#[test]
fn knip_findings_are_evidence_and_never_block() {
    let summary = knip_summary(&knip_counts(1, 1));
    assert_eq!(summary, (2, "2 issue(s): files 1, exports 1".to_string()));
    let evidence = RunEvidence::Ran { parsed: Some(summary), success: false, stderr: String::new() };
    let knip = classify("knip", &evidence);
    assert_eq!(knip.state, "issues");
    let findings = check_adapters(&vec![], &vec![knip], "consistency.yml");
    assert_eq!(findings.len(), 1);
    assert_eq!(findings[0].name, "adapter:knip");
    assert!(findings[0].passed, "adapter findings always pass");
    assert!(findings[0].detail.contains("2 issue(s)"), "must count files + exports: {}", findings[0].detail);
}

#[test]
fn adapters_are_skipped_where_they_do_not_apply() {
    assert!(applicable_adapters(false, false, false).is_empty(), "a Rust fixture triggers no adapter");
    assert_eq!(applicable_adapters(true, false, false), vec!["knip", "dependency-cruiser"]);
    assert_eq!(applicable_adapters(true, true, true), vec!["knip", "dependency-cruiser", "lychee", "zizmor"]);
    assert!(lychee_applicable(true, 0));
    assert!(lychee_applicable(false, 10));
    assert!(!lychee_applicable(false, 9));
}

#[test]
fn missing_and_failing_tools_degrade_to_evidence() {
    let evidence = vec![
        RunEvidence::Missing,
        RunEvidence::Unconfigured,
        RunEvidence::Ran { parsed: None, success: false, stderr: "  boom \n".to_string() },
    ];
    let out = run_all(true, true, false, &evidence);
    assert_eq!(out.len(), 3);
    assert_eq!(out[0].tool, "knip");
    assert_eq!(out[0].state, "missing");
    assert_eq!(out[0].detail, "knip absent — install: npm install --save-dev knip (project-local; evidence unavailable)");
    assert_eq!(out[1].state, "unconfigured");
    assert_eq!(out[2].tool, "lychee");
    assert_eq!(out[2].state, "error");
    assert_eq!(out[2].detail, "lychee: run failed (boom); evidence unavailable — cargo install lychee");
    let clean = classify("zizmor", &RunEvidence::Ran { parsed: None, success: true, stderr: String::new() });
    assert_eq!((clean.state.as_str(), clean.detail.as_str()), ("ok", "zizmor: ran clean (no machine-readable issues)"));
    let spawn = classify("lychee", &RunEvidence::SpawnFailed);
    assert_eq!(spawn.detail, "lychee absent — install: cargo install lychee (evidence unavailable)");
    let findings = check_adapters(&vec![], &out, "consistency.yml");
    assert!(findings.iter().all(|f| f.passed), "advisory findings never fail");
}

#[test]
fn required_policy_turns_an_adapter_into_a_gate() {
    let outcomes = vec![outcome("knip", "issues", "knip: 2 issue(s)"), outcome("lychee", "ok", "lychee: fine")];
    let policies = vec![policy("knip", "required"), policy("lychee", "required"), policy("zizmor", "required")];
    let f = check_adapters(&policies, &outcomes, "c.yml");
    assert_eq!(f.len(), 3);
    assert!(!f[0].passed);
    assert_eq!(
        f[0].detail,
        "[issues] knip: 2 issue(s) — required by c.yml (adapters.knip.policy = required): fix the reported issues, or set policy to advisory"
    );
    assert!(f[1].passed);
    assert_eq!(f[1].detail, "[ok] lychee: fine (policy required by c.yml: clean)");
    assert_eq!(f[2].name, "adapter:zizmor");
    assert!(!f[2].passed, "a required adapter that did not run fails");
}

#[test]
fn policy_table_typos_are_reported() {
    let f = check_adapters(&vec![policy("knipp", "required"), policy("knip", "sometimes")], &vec![], "c.yml");
    assert_eq!(f.len(), 1);
    assert_eq!(f[0].name, "adapter policy");
    assert!(!f[0].passed);
    assert_eq!(
        f[0].detail,
        "c.yml: unknown adapter \"knipp\" — known adapters: knip, dependency-cruiser, lychee, zizmor; invalid policy \"sometimes\" for adapter \"knip\" — expected \"required\" or \"advisory\""
    );
    assert!(is_known_adapter("zizmor") && !is_known_adapter("knipp"));
}

#[test]
fn adapter_summaries_are_deterministic() {
    assert_eq!(depcruiser_summary(0, vec![]).1, "no boundary violations");
    assert_eq!(
        depcruiser_summary(3, vec!["b".to_string(), "a".to_string(), "b".to_string()]).1,
        "3 violation(s): a, b"
    );
    assert_eq!(depcruiser_counter_summary(&vec![2]).1, "2 violation(s)");
    assert_eq!(depcruiser_counter_summary(&vec![1, 0, 3]), (4, "4 violation(s)".to_string()));
    assert_eq!(depcruiser_counter_summary(&vec![]).1, "no boundary violations");
    assert_eq!(aicontext::adapters::zizmor_kind(Some("excessive-permissions"), None), "excessive-permissions (?)");
    assert_eq!(aicontext::adapters::zizmor_kind(None, Some("high")), "finding (high)");
    let failing: Vec<String> = ["f", "e", "d", "c", "b", "a", "a"].iter().map(|s| s.to_string()).collect();
    assert_eq!(lychee_summary(7, failing).1, "7 broken link(s): a, b, c, d, e");
    assert_eq!(lychee_summary(0, vec![]).1, "no broken local links or anchors");
    assert_eq!(zizmor_summary(2, vec!["x (high)".to_string(), "x (high)".to_string()]).1, "2 finding(s): x (high)");
    assert_eq!(knip_summary(&vec![0u64; 15]).1, "no unused files, dependencies or exports");
    assert_eq!(lychee_inputs(false, false), vec!["."]);
    assert_eq!(lychee_inputs(true, true), vec!["docs", "README.md"]);
    assert_eq!(truncate("abcdef", 3), "abc…");
    assert_eq!(truncate("abc", 3), "abc");
}

#[test]
fn depcruiser_config_and_markdown_count() {
    assert_eq!(depcruiser_config_name(&vec![false, false, true, true, false]).as_deref(), Some(".dependency-cruiser.cjs"));
    assert_eq!(depcruiser_config_name(&vec![false; 5]), None);
    let mut report = empty_report(".");
    report.languages = vec![
        LanguageStat { language: "markdown".to_string(), files: 4, loc: 10 },
        LanguageStat { language: "rust".to_string(), files: 9, loc: 10 },
    ];
    assert_eq!(md_file_count(&report), 4);
}
