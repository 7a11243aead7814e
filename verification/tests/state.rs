use aicontext::state::{
    accept_subprojects_file, count_test_functions, extract_block, extract_curated, extract_generated, freshness_key,
    gitignore_update, init_profile, init_state_text, placement_phrase, render_context_block, render_project_state,
    state_drift, state_label, sync_exit_code, sync_write, table_cell, test_file_kind_exec, test_lines, upsert_block,
    Placement, SubprojectsFile, CUR_END, CUR_START, DEFAULT_CURATED, GEN_END, GEN_START, ROUTING_END, ROUTING_START,
};

#[test]
fn upsert_places_blocks_deterministically() {
    let block = format!("{ROUTING_START}\nbody\n{ROUTING_END}");
    let (after_h1, p) = upsert_block("# Title\nprose\n", &block, ROUTING_START, ROUTING_END);
    assert_eq!(p, Placement::AfterFirstHeading);
    assert_eq!(after_h1, format!("# Title\n\n{block}\n\nprose\n"));
    let (top, p) = upsert_block("prose\n", &block, ROUTING_START, ROUTING_END);
    assert_eq!(p, Placement::Top);
    assert_eq!(top, format!("{block}\n\nprose\n"));
    assert_eq!(placement_phrase(Placement::Top), "inserted at the top");
}

#[test]
fn upsert_converges_and_keeps_outside_bytes() {
    let block = format!("{ROUTING_START}\nnew\n{ROUTING_END}");
    let existing = format!("before\n{ROUTING_START}\nold\n{ROUTING_END}\nafter\n");
    let (once, p) = upsert_block(&existing, &block, ROUTING_START, ROUTING_END);
    assert_eq!(p, Placement::InPlace);
    assert_eq!(once, format!("before\n{block}\nafter\n"));
    let (twice, p2) = upsert_block(&once, &block, ROUTING_START, ROUTING_END);
    assert_eq!(p2, Placement::InPlace);
    assert_eq!(twice, once, "a second upsert of the same block changes nothing");
    assert_eq!(extract_block(&once, ROUTING_START, ROUTING_END).as_deref(), Some(block.as_str()));
}

#[test]
fn context_pointer_goes_to_the_end_without_heading() {
    let ctx = render_context_block();
    let (text, p) = upsert_block("no heading", &ctx, aicontext::state::CONTEXT_START, aicontext::state::CONTEXT_END);
    assert_eq!(p, Placement::End);
    assert_eq!(text, format!("no heading\n\n{ctx}\n"));
}

#[test]
fn project_state_roundtrips_both_blocks() {
    let generated = "Last synchronized commit: abc\nComplexity: small\n";
    let curated = "## Purpose\nKeep me.\n";
    let text = render_project_state(generated, Some(curated));
    assert!(text.starts_with(&format!("# Project State\n\n{GEN_START}\n")));
    assert!(text.contains(CUR_START) && text.contains(CUR_END) && text.contains(GEN_END));
    assert_eq!(extract_generated(&text), Some(format!("\n{generated}")));
    assert_eq!(extract_curated(&text).as_deref(), Some(curated));
    let default = render_project_state(generated, None);
    assert_eq!(extract_curated(&default).as_deref(), Some(DEFAULT_CURATED));
}

#[test]
fn freshness_ignores_the_commit_line() {
    let a = "Last synchronized commit: abc\nComplexity: small\n";
    let b = "  Last synchronized commit: def\nComplexity: small";
    assert_eq!(freshness_key(a), "Complexity: small");
    assert_eq!(freshness_key(a), freshness_key(b));
    let existing = render_project_state(a, None);
    assert!(!state_drift(&existing, b));
    assert!(state_drift(&existing, "Complexity: large\n"));
    assert_eq!(sync_write(&existing, b, false), None);
    assert_eq!(sync_write(&existing, "Complexity: large\n", true), None);
    let written = sync_write(&existing, "Complexity: large\n", false).expect("drift is rewritten");
    assert_eq!(extract_generated(&written).as_deref(), Some("\nComplexity: large\n"));
    assert_eq!(sync_exit_code(true, true), 1);
    assert_eq!(sync_exit_code(false, true), 0);
    assert_eq!(sync_exit_code(true, false), 0);
}

#[test]
fn state_label_distinguishes_the_three_states() {
    let fresh = "Complexity: small\n";
    let current = render_project_state(fresh, None);
    assert_eq!(state_label(false, Some(&current), fresh), "uninitialized");
    assert_eq!(state_label(true, Some(&current), fresh), "synchronized");
    assert_eq!(state_label(true, Some(&current), "Complexity: large\n"), "stale");
    assert_eq!(state_label(true, Some("no markers"), fresh), "stale");
    assert_eq!(state_label(true, None, fresh), "stale");
}

#[test]
fn init_keeps_the_curated_block() {
    let old = render_project_state("old\n", Some("## Mine\n"));
    let new = init_state_text(Some(&old), "new\n");
    assert_eq!(extract_curated(&new).as_deref(), Some("## Mine\n"));
    assert_eq!(extract_generated(&new).as_deref(), Some("\nnew\n"));
    assert_eq!(init_state_text(None, "g\n"), render_project_state("g\n", None));
    assert_eq!(init_profile(None), "auto");
    assert_eq!(init_profile(Some("large".to_string())), "large");
}

#[test]
fn gitignore_gains_missing_entries_once() {
    assert_eq!(gitignore_update(None).as_deref(), Some(".aicontext/\n.tgrep/\n"));
    assert_eq!(gitignore_update(Some("target/\n")).as_deref(), Some("target/\n.aicontext/\n.tgrep/\n"));
    assert_eq!(gitignore_update(Some("  .aicontext/ \n.tgrep/\n")), None);
    let once = gitignore_update(Some("node_modules")).expect("entries added");
    assert_eq!(gitignore_update(Some(&once)), None, "a second update changes nothing");
}

#[test]
fn test_census_counts_test_attributes_by_location() {
    assert_eq!(test_lines("#[test]\nfn a() {}\n    #[test]\n// #[test]\n#[tokio::test]\n"), 2);
    assert_eq!(test_file_kind_exec("src/lib.rs"), 1);
    assert_eq!(test_file_kind_exec("tests/it.rs"), 2);
    assert_eq!(test_file_kind_exec("src/target/x.rs"), 0);
    assert_eq!(test_file_kind_exec("benches/b.rs"), 0);
    let files = vec!["src/a.rs".to_string(), "tests/b.rs".to_string(), "src/c.rs".to_string()];
    let texts = vec![Some("#[test]\n#[test]\n".to_string()), Some("#[test]\n".to_string()), None];
    assert_eq!(count_test_functions(&files, &texts), (2, 1));
}

#[test]
fn table_cells_and_manifest_schema() {
    assert_eq!(table_cell("  a |  b\n c "), r"a \| b c");
    assert_eq!(table_cell("   "), "—");
    assert_eq!(table_cell(&"x".repeat(200)).len(), 120);
    let ok = SubprojectsFile { schema: String::new(), subprojects: vec![] };
    assert!(accept_subprojects_file(ok).is_some());
    let bad = SubprojectsFile { schema: "other/v9".to_string(), subprojects: vec![] };
    assert!(accept_subprojects_file(bad).is_none());
}

#[test]
fn empty_commit_keeps_state_fresh() {
    let mut report = aicontext::tools::empty_report("/repo");
    report.git.head = Some("1111111111111111111111111111111111111111".to_string());
    report.git.short_head = Some("1111111".to_string());
    let first = aicontext::state::generated_block(&report, 0, 0, None);
    let state = init_state_text(None, &first);
    // An empty commit moves HEAD without touching any scanned fact.
    report.git.head = Some("2222222222222222222222222222222222222222".to_string());
    report.git.short_head = Some("2222222".to_string());
    let after = aicontext::state::generated_block(&report, 0, 0, None);
    let drift = state_drift(&state, &after);
    assert_eq!(sync_exit_code(true, drift), 0, "content-less commit must stay fresh");
    assert_eq!(state_label(true, Some(&state), &after), "synchronized");
}

#[test]
fn generated_state_names_the_engineering_origin() {
    let mut report = aicontext::tools::empty_report("/repo");
    let standalone = aicontext::state::generated_block(&report, 0, 0, None);
    assert!(!standalone.contains("Origin:"), "standalone state has no Origin line");
    report.engineering = Some(aicontext::scan::EngineeringSummary {
        origin: "engineering-platform".to_string(),
        supported: true,
        recipe: Some("GP-99".to_string()),
    });
    let managed = aicontext::state::generated_block(&report, 0, 0, None);
    assert!(managed.contains("Origin: engineering-platform (recipe GP-99)\n"), "{managed}");
}

#[test]
fn commit_change_alone_keeps_the_freshness_key() {
    let a = "Version: 1.0.0 (package.json)\nLast synchronized commit: abc1234\nComplexity: small\n";
    let b = "Version: 1.0.0 (package.json)\nLast synchronized commit: def5678\nComplexity: small\n";
    assert_eq!(freshness_key(a), freshness_key(b));
    assert_eq!(freshness_key(a), "Version: 1.0.0 (package.json)\nComplexity: small");
}

#[test]
fn init_seeds_detected_paths_as_pending() {
    let paths: Vec<String> = ["apps/desktop", "apps/mobile", "apps/web", "services/api"].iter().map(|p| p.to_string()).collect();
    let (text, note) = aicontext::state::seed_subprojects(false, &paths);
    let expected = "# Subproject adoption tracker (aicontext/subprojects/v1).\n# `init` seeds detected paths as `pending`; the adoption skill fills\n# `purpose` and moves entries to `adopted`. This file is never rewritten.\nschema: aicontext/subprojects/v1\nsubprojects:\n  apps/desktop:\n    purpose: \"\"\n    status: pending\n  apps/mobile:\n    purpose: \"\"\n    status: pending\n  apps/web:\n    purpose: \"\"\n    status: pending\n  services/api:\n    purpose: \"\"\n    status: pending\n";
    assert_eq!(text.as_deref(), Some(expected), "seeded manifest must be byte-exact");
    assert!(note.contains("seeded with 4 entries"), "{note}");
}

#[test]
fn init_never_overwrites_existing_manifest() {
    let paths = vec!["apps/web".to_string()];
    let (text, note) = aicontext::state::seed_subprojects(true, &paths);
    assert!(text.is_none());
    assert!(note.contains("left intact"));
    let (none, _) = aicontext::state::seed_subprojects(false, &vec![]);
    assert!(none.is_none(), "nothing detected: no manifest seeded");
}

fn init_facts(state_text: Option<String>, gitignore: Option<String>) -> aicontext::state::InitFacts {
    aicontext::state::InitFacts {
        name: "demo".to_string(),
        profile: None,
        version_candidates: vec![],
        commands: vec!["build".to_string()],
        subprojects: vec!["apps/api".to_string(), "apps/web".to_string()],
        manifest_exists: false,
        consistency_exists: false,
        patterns_exists: false,
        subprojects_file_exists: false,
        state_text,
        gitignore,
        generated: "Last synchronized commit: abc1234\nComplexity: small\n".to_string(),
    }
}

#[test]
fn init_is_idempotent_and_sync_is_zero_diff() {
    let first = aicontext::state::init_writes(&init_facts(None, Some("target/\n".to_string())));
    assert!(first.manifest.is_some() && first.consistency.is_some() && first.patterns.is_some());
    assert!(first.subprojects.is_some());
    let ignore = first.gitignore.clone().expect("missing entries are added");
    let again = aicontext::state::InitFacts {
        manifest_exists: true,
        consistency_exists: true,
        patterns_exists: true,
        subprojects_file_exists: true,
        ..init_facts(Some(first.state.clone()), Some(ignore))
    };
    let second = aicontext::state::init_writes(&again);
    assert!(second.manifest.is_none() && second.consistency.is_none() && second.patterns.is_none());
    assert!(second.subprojects.is_none() && second.gitignore.is_none());
    assert_eq!(second.state, first.state, "PROJECT_STATE.md is byte-identical");
    // Curated text survives a re-run.
    let curated = first.state.replace("TBD — describe what this project is for.", "Ships the demo.");
    let kept = aicontext::state::init_writes(&aicontext::state::InitFacts { state_text: Some(curated.clone()), ..again });
    assert_eq!(kept.state, curated);
    // And `sync` on the written state is zero diff.
    assert!(sync_write(&first.state, "Last synchronized commit: abc1234\nComplexity: small\n", false).is_none());
}
