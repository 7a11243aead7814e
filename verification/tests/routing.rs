use aicontext::agent::{ensure_agents_pointer, AGENTS_POINTER};
use aicontext::scan::{ComplexityInfo, Subproject};
use aicontext::state::{
    generated_block, render_project_state, render_routing_block, update_agents_routing, RoutingMode, SubprojectEntry,
    SubprojectsFile, CONTEXT_END, CONTEXT_START, ROUTING_END, ROUTING_START,
};
use aicontext::tools::empty_report;

const TABLE_HEADER: &str = "| Path | Stack | Manifest | Entry context | Commands | Purpose |";

fn sub(path: &str, name: &str) -> Subproject {
    Subproject {
        path: path.to_string(),
        name: name.to_string(),
        kind: "manifest".to_string(),
        manifest: Some("package.json".to_string()),
        manager: Some("npm".to_string()),
        commands: vec![],
        agents_md: false,
        initialized: false,
        complexity: ComplexityInfo {
            profile: "small".to_string(),
            source_files: 0,
            loc: 0,
            workspaces: 0,
            languages: 0,
            reason: String::new(),
        },
    }
}

fn two() -> Vec<Subproject> {
    vec![sub("apps/web", "web"), sub("apps/api", "api")]
}

fn manifest_file(entries: &[(&str, &str)]) -> SubprojectsFile {
    SubprojectsFile {
        schema: "aicontext/subprojects/v1".to_string(),
        subprojects: entries
            .iter()
            .map(|(p, purpose)| SubprojectEntry {
                path: p.to_string(),
                purpose: purpose.to_string(),
                status: "pending".to_string(),
            })
            .collect(),
    }
}

#[test]
fn routing_block_is_inserted_after_the_first_h1() {
    let existing = "# Fixture repo\n\nUser prose stays here.\n";
    let out = update_agents_routing(Some(existing), &two(), None, RoutingMode::Init);
    let text = out.write.expect("init writes the router");
    assert!(
        text.starts_with(&format!("# Fixture repo\n\n{ROUTING_START}")),
        "routing block must sit immediately after the first heading:\n{text}"
    );
    let routing = text.find(ROUTING_START).expect("routing start");
    let context = text.find(CONTEXT_START).expect("context start");
    let prose = text.find("User prose stays here.").expect("user prose");
    assert!(routing < context && context < prose, "expected routing, then context, then the user bytes:\n{text}");
    assert!(out.note.contains("inserted after the first heading"), "{}", out.note);
}

#[test]
fn no_heading_places_routing_at_top_and_pointer_at_end() {
    let out = update_agents_routing(Some("User prose without heading.\n"), &two(), None, RoutingMode::Init);
    let text = out.write.expect("init writes the router");
    assert!(text.starts_with(ROUTING_START), "routing must open the file");
    assert!(text.trim_end().ends_with(CONTEXT_END), "pointer must close the file");
    assert!(text.contains("User prose without heading."));
    assert!(out.note.contains("inserted at the top"), "{}", out.note);
    assert!(out.note.contains("appended at the end"), "{}", out.note);
}

#[test]
fn bytes_outside_the_marked_block_are_untouched() {
    let stale = format!(
        "# Keep\n\nBEFORE-SENTINEL\n\n{ROUTING_START}\nstale table here\n{ROUTING_END}\n\nAFTER-SENTINEL\n"
    );
    let out = update_agents_routing(Some(&stale), &two(), None, RoutingMode::Sync);
    let after = out.write.expect("sync refreshes a stale block");
    let prefix_len = stale.find(ROUTING_START).expect("routing start");
    let suffix_start = stale.find(ROUTING_END).expect("routing end") + ROUTING_END.len();
    assert_eq!(&after[..prefix_len], &stale[..prefix_len]);
    assert_eq!(&after[after.len() - (stale.len() - suffix_start)..], &stale[suffix_start..]);
    assert!(after.contains(TABLE_HEADER), "block must be refreshed");
    assert!(!after.contains("stale table here"));
    assert!(!after.contains(CONTEXT_START), "sync must report a missing pointer, never insert it");
    assert!(out.note.contains("routing block refreshed in place"), "{}", out.note);
}

#[test]
fn only_two_or_more_subprojects_create_the_file() {
    let none = update_agents_routing(None, &vec![], None, RoutingMode::Init);
    assert!(none.write.is_none());
    assert!(none.note.contains("fewer than 2 subprojects"), "{}", none.note);

    let one = update_agents_routing(None, &vec![sub("apps/web", "web")], None, RoutingMode::Init);
    assert!(one.write.is_none());

    let kept = update_agents_routing(
        Some("# Mine\n\nNo router here.\n"),
        &vec![sub("apps/web", "web")],
        None,
        RoutingMode::Init,
    );
    assert!(kept.write.is_none(), "the file is left intact");

    let created = update_agents_routing(None, &two(), None, RoutingMode::Init);
    let text = created.write.expect("two subprojects create the file");
    assert!(text.contains(ROUTING_START) && text.contains(CONTEXT_START));
    assert_eq!(created.note, "AGENTS.md created with context and routing blocks");
}

#[test]
fn sync_never_creates_and_report_never_writes() {
    let absent = update_agents_routing(None, &two(), None, RoutingMode::Sync);
    assert!(absent.write.is_none());
    assert_eq!(absent.note, "AGENTS.md absent: no routing block to refresh");
    let stale = format!("# T\n\n{ROUTING_START}\nold\n{ROUTING_END}\n");
    let report = update_agents_routing(Some(&stale), &two(), None, RoutingMode::Report);
    assert!(report.write.is_none());
    assert!(report.note.contains("routing block stale; run `aicontext sync`"), "{}", report.note);
}

#[test]
fn table_cells_escape_pipes_collapse_whitespace_and_clip() {
    let long = "a".repeat(130);
    let file = manifest_file(&[("apps/api", long.as_str()), ("apps/web", "left | right\nsecond line")]);
    let subs = vec![sub("apps/web", "web"), sub("apps/api", "api"), sub("apps/we|ird", "weird")];
    let text = render_routing_block(&subs, Some(&file));
    assert!(
        text.contains(r"| apps/we\|ird | npm | apps/we\|ird/package.json"),
        "pipes in paths must be escaped:\n{text}"
    );
    assert!(
        text.contains(r"left \| right second line |"),
        "newlines collapse and pipes escape inside a cell:\n{text}"
    );
    assert!(text.contains(&"a".repeat(120)), "long cell is kept to 120 chars");
    assert!(!text.contains(&"a".repeat(121)), "long cell must be clipped at 120 chars");
}

#[test]
fn generated_markdown_shape_is_lint_stable() {
    let subs = vec![sub("apps/web", "web"), sub("apps/desktop", "desktop"), sub("services/api", "api")];
    let agents = render_routing_block(&subs, None);
    assert!(
        agents.contains(&format!("broadly.\n\n{TABLE_HEADER}")),
        "blank line before the table (MD058):\n{agents}"
    );
    assert!(agents.contains("| --- | --- | --- | --- | --- | --- |"));
    assert!(!agents.contains("|---|---|"), "MD060: compact separators are not allowed");
    assert!(
        agents.contains("|\n\nRules:\n\n- Identify the subproject"),
        "blank line after the table and before the Rules list (MD032):\n{agents}"
    );
    assert!(agents.contains("This repository has 3 subprojects."));
    let desktop = agents.find("| apps/desktop |").expect("desktop row");
    let web = agents.find("| apps/web |").expect("web row");
    let api = agents.find("| services/api |").expect("api row");
    assert!(desktop < web && web < api, "rows are in path order");

    let mut report = empty_report("/repo");
    report.subprojects = subs;
    let generated = generated_block(&report, 0, 0, None);
    let state = render_project_state(&generated, None);
    assert!(
        state.contains(&format!("Subprojects:\n\n{TABLE_HEADER}")),
        "the generated block carries the same table:\n{state}"
    );
    assert!(state.contains("| --- | --- | --- | --- | --- | --- |"));
    assert!(
        state.contains("|\n\n<!-- aicontext:generated:end -->"),
        "blank line after the table inside PROJECT_STATE.md"
    );
}

#[test]
fn legacy_pointer_is_reported_neither_duplicated_nor_rewritten() {
    let (appended, changed, _) = ensure_agents_pointer(Some("# Test repo\n"));
    assert!(changed);
    let legacy = appended.expect("agent install appends the pointer");
    assert!(legacy.contains("## Repository context"));
    assert!(legacy.contains(AGENTS_POINTER));

    let out = update_agents_routing(Some(&legacy), &two(), None, RoutingMode::Init);
    assert!(out.note.contains("legacy pointer left untouched"), "{}", out.note);
    let after = out.write.expect("the router is still added");
    assert_eq!(after.matches("## Repository context").count(), 1, "the legacy pointer must not be duplicated");
    assert!(!after.contains(CONTEXT_START), "the legacy pointer must not be rewritten into markers");
    assert_eq!(after.matches("`aicontext check`").count(), 1);
    assert!(after.contains(ROUTING_START), "the router is still added");

    let again = update_agents_routing(Some(&after), &two(), None, RoutingMode::Init);
    assert!(again.write.is_none(), "a converged file is not rewritten");
    assert!(again.note.contains("legacy pointer left untouched"), "{}", again.note);
}

#[test]
fn routing_update_converges_after_one_write() {
    let first = update_agents_routing(Some("# Repo\n"), &two(), None, RoutingMode::Init);
    let text = first.write.expect("first init writes");
    let second = update_agents_routing(Some(&text), &two(), None, RoutingMode::Sync);
    assert!(second.write.is_none(), "{}", second.note);
    assert!(second.note.contains("routing block already up to date"), "{}", second.note);
}

#[test]
fn created_agents_file_is_left_alone_by_the_next_runs() {
    let created = update_agents_routing(None, &two(), None, RoutingMode::Init);
    let text = created.write.expect("init creates AGENTS.md");
    for mode in [RoutingMode::Init, RoutingMode::Sync, RoutingMode::Report] {
        let again = update_agents_routing(Some(&text), &two(), None, mode);
        assert!(again.write.is_none(), "{:?}: {}", mode, again.note);
    }
    let plain = update_agents_routing(Some("no heading here\n"), &two(), None, RoutingMode::Init);
    let text = plain.write.expect("init inserts both blocks");
    let again = update_agents_routing(Some(&text), &two(), None, RoutingMode::Init);
    assert!(again.write.is_none(), "{}", again.note);
}

#[test]
fn status_json_counts_adopted_and_pending() {
    let mut file = manifest_file(&[("apps/web", "Web app"), ("apps/api", "API"), ("apps/ghost", "Ghost")]);
    file.subprojects[0].status = "adopted".to_string();
    let detected = vec![sub("apps/web", "web"), sub("apps/api", "api")];
    assert_eq!(
        aicontext::state::subproject_counts(&detected, Some(&file)),
        (2, 1, 1),
        "entries for non-detected paths are ignored"
    );
}

#[test]
fn status_json_without_subprojects_reports_zero() {
    assert_eq!(aicontext::state::subproject_counts(&vec![], None), (0, 0, 0));
    let mut ghost = manifest_file(&[("apps/ghost", "Ghost")]);
    ghost.subprojects[0].status = "adopted".to_string();
    assert_eq!(aicontext::state::subproject_counts(&vec![], Some(&ghost)), (0, 0, 0));
    assert_eq!(aicontext::state::subproject_counts(&two(), Some(&ghost)), (2, 0, 2));
}

/// One `init`, `sync` or `sync --check` over the two managed files, as the
/// command line runs it: the routing update on `AGENTS.md`, then the state
/// file re-rendered around a fresh generated block. Returns the exit code.
fn run_state(
    agents: &mut Option<String>,
    state: &mut Option<String>,
    subs: &Vec<Subproject>,
    file: Option<&SubprojectsFile>,
    command: &str,
) -> i32 {
    let mut report = empty_report("/repo");
    report.subprojects = subs.clone();
    let fresh = generated_block(&report, 0, 0, file);
    let mode = match command {
        "init" => RoutingMode::Init,
        "sync" => RoutingMode::Sync,
        _ => RoutingMode::Report,
    };
    let outcome = update_agents_routing(agents.as_deref(), subs, file, mode);
    if let Some(text) = outcome.write {
        *agents = Some(text);
    }
    if command == "init" {
        *state = Some(aicontext::state::init_state_text(state.as_deref(), &fresh));
        return 0;
    }
    let existing = state.clone().expect("initialized");
    let check_only = command == "check";
    let drift = aicontext::state::state_drift(&existing, &fresh);
    if let Some(text) = aicontext::state::sync_write(&existing, &fresh, check_only) {
        *state = Some(text);
    }
    aicontext::state::sync_exit_code(check_only, drift)
}

#[test]
fn init_and_sync_are_byte_identical_across_runs() {
    let subs = vec![
        sub("apps/web", "web"),
        sub("apps/desktop", "desktop"),
        sub("services/api", "api"),
        sub("packages/ui", "ui"),
    ];
    let mut agents: Option<String> = None;
    let mut state: Option<String> = None;
    let _ = run_state(&mut agents, &mut state, &subs, None, "init");
    let text = agents.clone().expect("init creates AGENTS.md");
    assert!(text.contains(ROUTING_START) && text.contains(ROUTING_END));
    assert!(text.contains(CONTEXT_START) && text.contains(CONTEXT_END));
    assert!(text.contains("This repository has 4 subprojects."));

    assert_eq!(run_state(&mut agents, &mut state, &subs, None, "sync"), 0, "sync must converge after init");
    let agents_before = agents.clone();
    let state_before = state.clone().expect("state");
    assert!(state_before.contains("| apps/desktop | npm |"));

    assert_eq!(run_state(&mut agents, &mut state, &subs, None, "init"), 0, "second init on a converged tree");
    assert_eq!(run_state(&mut agents, &mut state, &subs, None, "sync"), 0);
    assert_eq!(agents, agents_before, "AGENTS.md must be byte-identical across runs");
    assert_eq!(state.as_deref(), Some(state_before.as_str()), "PROJECT_STATE.md must be byte-identical across runs");
}

#[test]
fn purpose_change_is_freshness_drift_until_sync() {
    let subs = vec![sub("apps/api", "api"), sub("apps/web", "web")];
    let yml = |purpose: &str| manifest_file(&[("apps/api", "First purpose"), ("apps/web", purpose)]);
    let second = yml("Second purpose");
    let mut agents: Option<String> = None;
    let mut state: Option<String> = None;
    let _ = run_state(&mut agents, &mut state, &subs, Some(&second), "init");
    assert_eq!(run_state(&mut agents, &mut state, &subs, Some(&second), "sync"), 0);
    assert!(state.as_deref().unwrap_or("").contains("Second purpose"));
    assert_eq!(run_state(&mut agents, &mut state, &subs, Some(&second), "check"), 0);

    // `purpose` is a projected fact: editing it is genuine drift.
    let renamed = yml("Renamed purpose");
    assert_eq!(run_state(&mut agents, &mut state, &subs, Some(&renamed), "check"), 1, "changed purpose must report stale");
    assert_eq!(run_state(&mut agents, &mut state, &subs, Some(&renamed), "sync"), 0);
    let text = state.clone().expect("state");
    assert!(text.contains("Renamed purpose"));
    assert!(!text.contains("Second purpose"));
    assert!(
        agents.as_deref().unwrap_or("").contains("Renamed purpose"),
        "the routing block is refreshed in the same sync"
    );
    assert_eq!(run_state(&mut agents, &mut state, &subs, Some(&renamed), "check"), 0, "synced tree must be green");
}

#[test]
fn partial_files_converge_after_one_init() {
    let three = vec![sub("apps/web", "web"), sub("apps/api", "api"), sub("apps/cli", "cli")];
    let old_routing = render_routing_block(&two(), None);
    let context = aicontext::state::render_context_block();
    let shapes = [
        // Routing block only (its context block removed by hand).
        format!("# Repo\n\nIntro.\n\n{old_routing}\n\nOutro.\n"),
        // Context block only.
        format!("# Repo\n\n{context}\n"),
        // Both blocks, the routing one stale.
        format!("# Repo\n\n{old_routing}\n\nMiddle.\n\n{context}\n"),
    ];
    for shape in shapes {
        let first = update_agents_routing(Some(&shape), &three, None, RoutingMode::Init);
        let text = first.write.expect("init refreshes or inserts");
        assert!(text.contains("This repository has 3 subprojects."), "{text}");
        assert!(text.contains(CONTEXT_START), "{text}");
        for mode in [RoutingMode::Init, RoutingMode::Sync, RoutingMode::Report] {
            let again = update_agents_routing(Some(&text), &three, None, mode);
            assert!(again.write.is_none(), "{:?} rewrote a converged file: {}", mode, again.note);
        }
    }
}
