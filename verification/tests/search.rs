use aicontext::search::{graph_nodes, group_nodes, route_step, RouteStep};
use aicontext::search::{
    backend_answer_usable, backend_args, backend_gate, cbm_advance, cbm_start, codegraph_impact, coverage_serves_scope,
    degraded_note, exact_name_pattern, in_scope, knowledge_search, literal_backends, name_from_qn, normalize_scope,
    parse_grep_lines, qn_of, regex_literal, resolve_scope, route_impact, search_mode, start_line, structural_hits,
    CallAnswer, CbmNode, CbmReply, CbmStep, CodegraphItem, GraphImpact, GraphRoute, StructMatch, CBM, CODEGRAPH,
};
use aicontext::tools::ToolState;

fn node(name: &str, qn: &str, file: &str, line: u64) -> CbmNode {
    CbmNode {
        name: name.to_string(),
        qn: qn.to_string(),
        label: "Function".to_string(),
        file: file.to_string(),
        line,
    }
}

fn ask(step: CbmStep) -> (aicontext::search::CbmStage, Vec<String>) {
    match step {
        CbmStep::Ask { stage, args } => (stage, args),
        CbmStep::Done(g) => panic!("pipeline ended early: {g:?}"),
    }
}

#[test]
fn scopes_normalize_and_reject_escapes() {
    assert_eq!(normalize_scope(" ./apps\\web/ ").unwrap(), "apps/web");
    assert_eq!(normalize_scope("").unwrap(), ".");
    assert_eq!(normalize_scope("./").unwrap(), ".");
    for bad in ["/etc", "-rf", "C:/x", "apps/../..", ".."] {
        let e = normalize_scope(bad).unwrap_err();
        assert_eq!(e.code(), "INVALID_SCOPE", "{bad}");
    }
    let aicontext::output::AiError::Check { message, .. } = normalize_scope("../x").unwrap_err();
    assert_eq!(message, "scope `../x` must be a repo-relative path inside the repository");
}

#[test]
fn resolve_scope_prefers_subproject_and_validates() {
    let detected = vec!["apps/web".to_string(), "services/api".to_string()];
    let whole = resolve_scope(None, None, &detected, false).unwrap();
    assert_eq!(whole.path, ".");
    assert_eq!(whole.label, None);
    let sub = resolve_scope(Some("apps"), Some("./apps/web/"), &detected, false).unwrap();
    assert_eq!(sub.path, "apps/web");
    assert_eq!(sub.subproject.as_deref(), Some("apps/web"));
    let aicontext::output::AiError::Check { message, code, .. } =
        resolve_scope(None, Some("nope"), &detected, true).unwrap_err();
    assert_eq!(code, "INVALID_SCOPE");
    assert_eq!(message, "`nope` is not a detected subproject; candidates: apps/web, services/api");
    let inside = resolve_scope(Some("apps/web"), None, &detected, true).unwrap();
    assert_eq!(inside.label.as_deref(), Some("apps/web"));
    assert_eq!(inside.subproject, None);
    assert!(resolve_scope(Some("apps/none"), None, &detected, false).is_err());
}

#[test]
fn in_scope_matches_whole_segments() {
    assert!(in_scope("anything", "."));
    assert!(in_scope("apps/web", "apps/web"));
    assert!(in_scope("apps/web/src/a.ts", "apps/web"));
    assert!(!in_scope("apps/website/a.ts", "apps/web"));
}

#[test]
fn grep_output_is_parsed_into_hits() {
    let out = "src/a.rs:12:  let x = 1; // a:b\nnot a hit\n:3:empty path\nb.rs:0:zero line\nc.rs:7:\n";
    let hits = parse_grep_lines(out);
    assert_eq!(hits.len(), 2);
    assert_eq!((hits[0].path.as_str(), hits[0].line, hits[0].text.as_str()), ("src/a.rs", 12, "let x = 1; // a:b"));
    assert_eq!((hits[1].path.as_str(), hits[1].line, hits[1].text.as_str()), ("c.rs", 7, ""));
    let many: String = (1..=40).map(|i| format!("f.rs:{i}:x\n")).collect();
    assert_eq!(parse_grep_lines(&many).len(), 30);
}

#[test]
fn literal_backends_run_fixed_strings_inside_the_scope() {
    assert_eq!(
        backend_args("rg", "a.b", "apps/web"),
        vec![
            "--fixed-strings", "--line-number", "--no-heading", "--color", "never", "--max-columns", "300",
            "--no-messages", "-e", "a.b", "apps/web"
        ]
    );
    assert_eq!(backend_args("git grep", "q", "."), vec!["grep", "-F", "-n", "-I", "--no-color", "-e", "q", "--", "."]);
    assert_eq!(literal_backends(true, false), vec!["tgrep", "git grep"]);
    assert_eq!(literal_backends(false, true), vec!["rg", "git grep"]);
    assert!(backend_answer_usable(Some(0)) && backend_answer_usable(Some(1)));
    assert!(!backend_answer_usable(Some(2)) && !backend_answer_usable(None));
    assert_eq!(search_mode(true, true), "impact");
    assert_eq!(search_mode(false, true), "structure");
    assert_eq!(search_mode(false, false), "text");
}

#[test]
fn knowledge_hits_come_first_case_insensitively_and_are_bounded() {
    let state = "# Project State\nPackage manager: npm (package.json)\nother\n";
    let patterns = "PACKAGE notes\n";
    let hits = knowledge_search(".", "package MANAGER", Some(state), Some(patterns));
    assert_eq!(hits.len(), 1);
    assert_eq!(hits[0].file, ".engineering/PROJECT_STATE.md");
    assert_eq!(hits[0].line, 2);
    let both = knowledge_search(".", "package", Some(state), Some(patterns));
    assert_eq!(both.len(), 2);
    assert_eq!(both[1].file, ".engineering/PATTERNS.md");
    let scoped = knowledge_search("apps/web", "package", Some(state), Some(patterns));
    assert!(scoped.is_empty(), "knowledge outside the scope is not searched");
    let big: String = (0..25).map(|i| format!("needle {i}\n")).collect();
    assert_eq!(knowledge_search(".", "NEEDLE", Some(&big), Some(&big)).len(), 10);
}

#[test]
fn structural_matches_become_one_based_hits() {
    let m = vec![
        StructMatch { file: Some("index.js".to_string()), line0: Some(4), lines: Some("  console.log(x)\nmore".to_string()) },
        StructMatch { file: None, line0: None, lines: None },
    ];
    let hits = structural_hits(&m);
    assert_eq!(hits.len(), 2);
    assert_eq!((hits[0].path.as_str(), hits[0].line, hits[0].text.as_str()), ("index.js", 5, "console.log(x)"));
    assert_eq!((hits[1].path.as_str(), hits[1].line, hits[1].text.as_str()), ("?", 1, ""));
}

#[test]
fn graph_reasons_and_route_fall_through_in_order() {
    assert_eq!(GraphImpact::NoIndex { backend: CBM }.reason(), "codebase-memory-mcp: project not indexed");
    assert_eq!(
        GraphImpact::NoIndex { backend: CODEGRAPH }.reason(),
        "codegraph index missing — run `codegraph init` for graph results"
    );
    assert_eq!(backend_gate(ToolState::Usable, CBM), None);
    assert_eq!(backend_gate(ToolState::Missing, CODEGRAPH).as_deref(), Some("codegraph: not installed"));
    assert_eq!(
        backend_gate(ToolState::Disabled, CBM).as_deref(),
        Some("codebase-memory-mcp: disabled in aicontext.toml")
    );
    let tried = vec![
        Ok(GraphImpact::Timeout { backend: CBM }),
        Ok(GraphImpact::Ready { backend: CODEGRAPH, hits: vec![] }),
    ];
    match route_impact(&tried) {
        GraphRoute::Ready { backend, hits } => {
            assert_eq!(backend, CODEGRAPH);
            assert!(hits.is_empty(), "a valid empty answer is still the answer");
        }
        other => panic!("expected codegraph: {other:?}"),
    }
    let failing = vec![Err("codebase-memory-mcp: not installed".to_string()), Ok(GraphImpact::Unavailable { backend: CODEGRAPH })];
    match route_impact(&failing) {
        GraphRoute::Degrade { notes } => {
            assert_eq!(notes, vec!["codebase-memory-mcp: not installed", "codegraph: not installed"]);
            assert_eq!(
                degraded_note(&notes),
                "graph unavailable — degraded to text results (codebase-memory-mcp: not installed; codegraph: not installed)"
            );
        }
        other => panic!("expected degrade: {other:?}"),
    }
}

#[test]
fn codegraph_answers_map_to_impact_kinds() {
    assert!(matches!(codegraph_impact(&CallAnswer::Timeout), GraphImpact::Timeout { .. }));
    assert!(matches!(codegraph_impact(&CallAnswer::Failed), GraphImpact::NoIndex { .. }));
    assert!(matches!(codegraph_impact(&CallAnswer::Unparsed), GraphImpact::Invalid { .. }));
    let items = vec![CodegraphItem {
        file_path: Some("graph/affected.js".to_string()),
        start_line: Some(0),
        name: Some("f".to_string()),
        kind: Some("function".to_string()),
    }];
    match codegraph_impact(&CallAnswer::Parsed(items)) {
        GraphImpact::Ready { backend, hits } => {
            assert_eq!(backend, CODEGRAPH);
            assert_eq!((hits[0].path.as_str(), hits[0].line, hits[0].text.as_str()), ("graph/affected.js", 1, "f (function)"));
        }
        other => panic!("{other:?}"),
    }
}

#[test]
fn graph_query_helpers() {
    assert_eq!(regex_literal("a.b(c)"), r"a\.b\(c\)");
    assert_eq!(exact_name_pattern(&vec!["x.y".to_string(), "z".to_string()]), r"^(x\.y|z)$");
    assert_eq!(start_line("105-185"), 105);
    assert_eq!(start_line("0"), 1);
    assert_eq!(start_line("junk"), 1);
    assert_eq!(qn_of("", "alpha"), "alpha");
    assert_eq!(qn_of("proj.web", "alpha"), "proj.web.alpha");
    assert_eq!(name_from_qn("proj.web.alpha"), "alpha");
    let rows = vec![("apps/web".to_string(), "no_recorded_issue".to_string(), "not_tracked".to_string())];
    assert!(coverage_serves_scope(&rows, "apps/web"));
    assert!(!coverage_serves_scope(&rows, "apps/api"));
}

#[test]
fn healthy_codebase_memory_pipeline_answers_with_relations() {
    let (stage, args) = ask(cbm_start());
    assert_eq!(args, vec!["list_projects", "--format", "json", "--limit", "50", "--offset", "0"]);
    let (stage, args) = ask(cbm_advance(stage, CbmReply::Projects { found: Some("proj".to_string()), has_more: false }, ".", "alpha"));
    assert_eq!(args, vec!["index_status", "--project", "proj", "--format", "json"]);
    let (stage, args) = ask(cbm_advance(stage, CbmReply::Status { ready: true, same_root: true }, ".", "alpha"));
    assert_eq!(args[0], "search_graph");
    assert_eq!(args[4], "^(alpha)$");
    let alpha = node("alpha", "proj.scripts.alpha", "scripts/alpha.js", 10);
    let (stage, args) = ask(cbm_advance(stage, CbmReply::Nodes(vec![alpha]), ".", "alpha"));
    assert_eq!(args[0], "trace_path");
    assert_eq!(args[2], "proj.scripts.alpha");
    let rels = vec![("proj.other.gamma".to_string(), true), ("proj.scripts.beta".to_string(), false)];
    let (stage, args) = ask(cbm_advance(stage, CbmReply::Trace(rels), ".", "alpha"));
    assert_eq!(args[0], "search_graph");
    let related = vec![
        node("gamma", "proj.other.gamma", "other/gamma.js", 30),
        node("beta", "proj.scripts.beta", "scripts/alpha.js", 20),
    ];
    match cbm_advance(stage, CbmReply::Nodes(related), ".", "alpha") {
        CbmStep::Done(GraphImpact::Ready { backend, hits }) => {
            assert_eq!(backend, CBM);
            let got: Vec<(&str, u64, &str)> = hits.iter().map(|h| (h.path.as_str(), h.line, h.text.as_str())).collect();
            assert_eq!(
                got,
                vec![
                    ("other/gamma.js", 30, "gamma (Function, caller)"),
                    ("scripts/alpha.js", 10, "alpha (Function)"),
                    ("scripts/alpha.js", 20, "beta (Function, callee)"),
                ]
            );
        }
        other => panic!("expected a ready answer: {other:?}"),
    }
}

#[test]
fn unindexed_or_wedged_codebase_memory_ends_the_pipeline() {
    let (stage, _) = ask(cbm_start());
    assert!(matches!(
        cbm_advance(stage, CbmReply::Projects { found: None, has_more: false }, ".", "a"),
        CbmStep::Done(GraphImpact::NoIndex { .. })
    ));
    let (stage, _) = ask(cbm_start());
    assert!(matches!(cbm_advance(stage, CbmReply::Timeout, ".", "a"), CbmStep::Done(GraphImpact::Timeout { .. })));
    let (stage, _) = ask(cbm_start());
    let (stage, args) = ask(cbm_advance(stage, CbmReply::Projects { found: None, has_more: true }, ".", "a"));
    assert_eq!(args[6], "50");
    assert!(matches!(
        cbm_advance(stage, CbmReply::Projects { found: Some("p".to_string()), has_more: false }, ".", "a"),
        CbmStep::Ask { .. }
    ));
}

/// The healthy codebase-memory answers: the project of this root, a ready
/// index, the `alpha` symbol in `scripts/`, its callee `beta` next to it
/// and its caller `gamma` in `other/`.
fn healthy_reply(args: &[String]) -> CbmReply {
    match args[0].as_str() {
        "list_projects" => CbmReply::Projects { found: Some("fixture-project".to_string()), has_more: false },
        "index_status" => CbmReply::Status { ready: true, same_root: true },
        "check_index_coverage" => CbmReply::Coverage(vec![(
            "scripts".to_string(),
            "no_recorded_issue".to_string(),
            "not_tracked".to_string(),
        )]),
        "trace_path" => CbmReply::Trace(vec![("proj.src.beta".to_string(), false), ("proj.other.gamma".to_string(), true)]),
        _ if args.iter().any(|a| a == "--qn-pattern") => CbmReply::Nodes(vec![
            node("beta", &qn_of("proj.src", "beta"), "scripts/alpha.js", start_line("30-40")),
            node("gamma", &qn_of("proj.other", "gamma"), "other/gamma.js", start_line("5-9")),
        ]),
        _ => CbmReply::Nodes(vec![node("alpha", &qn_of("proj.src", "alpha"), "scripts/alpha.js", start_line("10-20"))]),
    }
}

/// Runs the codebase-memory pipeline to its end, answering each call with
/// `reply`; returns the result and the calls made.
fn drive_cbm(scope: &str, symbol: &str, reply: impl Fn(&[String]) -> CbmReply) -> (GraphImpact, Vec<Vec<String>>) {
    let mut calls: Vec<Vec<String>> = Vec::new();
    let mut step = cbm_start();
    loop {
        match step {
            CbmStep::Ask { stage, args } => {
                let answer = reply(&args);
                calls.push(args);
                step = cbm_advance(stage, answer, scope, symbol);
            }
            CbmStep::Done(g) => return (g, calls),
        }
    }
}

/// The codegraph answer naming one affected file.
fn codegraph_answer() -> GraphImpact {
    codegraph_impact(&CallAnswer::Parsed(vec![CodegraphItem {
        file_path: Some("graph/affected.js".to_string()),
        start_line: Some(3),
        name: Some("alpha".to_string()),
        kind: Some("function".to_string()),
    }]))
}

fn ready(route: GraphRoute) -> (&'static str, Vec<(String, u64, String)>) {
    match route {
        GraphRoute::Ready { backend, hits } => (backend, hits.into_iter().map(|h| (h.path, h.line, h.text)).collect()),
        other => panic!("expected a graph answer: {other:?}"),
    }
}

#[test]
fn impact_prefers_codebase_memory_when_healthy() {
    let (cbm, _) = drive_cbm(".", "alpha", healthy_reply);
    let (backend, hits) = ready(route_impact(&vec![Ok(cbm)]));
    assert_eq!(backend, "codebase-memory-mcp");
    assert_eq!(
        hits,
        vec![
            ("other/gamma.js".to_string(), 5, "gamma (Function, caller)".to_string()),
            ("scripts/alpha.js".to_string(), 10, "alpha (Function)".to_string()),
            ("scripts/alpha.js".to_string(), 30, "beta (Function, callee)".to_string()),
        ],
        "graph hits must name the symbol and its direct relations"
    );
}

#[test]
fn healthy_codebase_memory_skips_codegraph() {
    let (cbm, _) = drive_cbm(".", "alpha", healthy_reply);
    let (backend, _) = ready(route_impact(&vec![Ok(cbm), Ok(codegraph_answer())]));
    assert_eq!(backend, "codebase-memory-mcp", "a ready answer stops the router");
}

#[test]
fn missing_codebase_memory_falls_back_to_codegraph() {
    let missing = backend_gate(ToolState::Missing, CBM).expect("a missing backend is noted");
    let (backend, hits) = ready(route_impact(&vec![Err(missing), Ok(codegraph_answer())]));
    assert_eq!(backend, "codegraph");
    assert_eq!((hits[0].0.as_str(), hits[0].1), ("graph/affected.js", 3));
}

#[test]
fn unindexed_root_falls_back_to_codegraph() {
    let other_root = |args: &[String]| match args[0].as_str() {
        "list_projects" => CbmReply::Projects { found: None, has_more: false },
        _ => healthy_reply(args),
    };
    let (cbm, calls) = drive_cbm(".", "alpha", other_root);
    assert_eq!(calls[0][0], "list_projects", "codebase-memory is consulted first");
    let (backend, hits) = ready(route_impact(&vec![Ok(cbm), Ok(codegraph_answer())]));
    assert_eq!(backend, "codegraph");
    assert_eq!(hits[0].0, "graph/affected.js");
}

#[test]
fn codebase_memory_timeout_falls_back_to_codegraph() {
    let (cbm, calls) = drive_cbm(".", "alpha", |_| CbmReply::Timeout);
    assert_eq!(calls[0][0], "list_projects");
    let (backend, _) = ready(route_impact(&vec![Ok(cbm), Ok(codegraph_answer())]));
    assert_eq!(backend, "codegraph", "a wedged codebase-memory must not win");
}

#[test]
fn both_graph_backends_failing_falls_back_to_text() {
    let (cbm, _) = drive_cbm(".", "hello", |_| CbmReply::Failed);
    match route_impact(&vec![Ok(cbm), Ok(codegraph_impact(&CallAnswer::Failed))]) {
        GraphRoute::Degrade { notes } => assert!(degraded_note(&notes).contains("degraded"), "{notes:?}"),
        other => panic!("both failing must degrade: {other:?}"),
    }
}

#[test]
fn impact_without_any_graph_backend_degrades_to_text() {
    let tried = vec![
        Err(backend_gate(ToolState::Missing, CBM).expect("noted")),
        Err(backend_gate(ToolState::Missing, CODEGRAPH).expect("noted")),
    ];
    match route_impact(&tried) {
        GraphRoute::Degrade { notes } => {
            let note = degraded_note(&notes);
            assert!(note.contains("degraded"), "{note}");
            assert!(note.contains("codebase-memory-mcp"), "{note}");
            assert!(note.contains("codegraph"), "{note}");
        }
        other => panic!("expected a degraded route: {other:?}"),
    }
}

#[test]
fn empty_graph_result_is_terminal() {
    let local = |args: &[String]| match args[0].as_str() {
        "check_index_coverage" => {
            CbmReply::Coverage(vec![("local".to_string(), "no_recorded_issue".to_string(), "not_tracked".to_string())])
        }
        _ => healthy_reply(args),
    };
    let (cbm, _) = drive_cbm("local", "alpha", local);
    let (backend, hits) = ready(route_impact(&vec![Ok(cbm), Ok(codegraph_answer())]));
    assert_eq!(backend, "codebase-memory-mcp");
    assert!(hits.is_empty(), "every node lives outside the scope: {hits:?}");
}

#[test]
fn subproject_validation_is_preserved() {
    let detected: Vec<String> =
        ["apps/desktop", "apps/mobile", "apps/web", "services/api"].iter().map(|s| s.to_string()).collect();
    // Unknown subproject: rejected before any backend is asked.
    let bad = resolve_scope(None, Some("nope"), &detected, false).unwrap_err();
    assert_eq!(aicontext::output::exit_code_for(bad.code()), 5);
    let aicontext::output::AiError::Check { message, .. } = bad;
    assert!(message.contains("not a detected subproject"), "{message}");

    // Detected subproject: served by the graph, scoped to the subproject.
    let scope = resolve_scope(None, Some("apps/web"), &detected, true).expect("detected subproject");
    assert_eq!(scope.subproject.as_deref(), Some("apps/web"));
    let web = |args: &[String]| match args[0].as_str() {
        "check_index_coverage" => {
            CbmReply::Coverage(vec![("apps/web".to_string(), "no_recorded_issue".to_string(), "not_tracked".to_string())])
        }
        "trace_path" => CbmReply::Trace(vec![]),
        _ if args.iter().any(|a| a == "--qn-pattern") => CbmReply::Nodes(vec![]),
        "search_graph" => CbmReply::Nodes(vec![node("alpha", &qn_of("proj.web", "alpha"), "apps/web/src/alpha.js", start_line("10-20"))]),
        _ => healthy_reply(args),
    };
    let (cbm, _) = drive_cbm(&scope.path, "alpha", web);
    let (backend, hits) = ready(route_impact(&vec![Ok(cbm), Ok(codegraph_answer())]));
    assert_eq!(backend, "codebase-memory-mcp");
    assert_eq!(hits.len(), 1, "{hits:?}");
    assert_eq!(hits[0].0, "apps/web/src/alpha.js");
}

#[test]
fn impact_output_is_deterministic_across_equivalent_fixtures() {
    let answer = || ready(route_impact(&vec![Ok(drive_cbm(".", "alpha", healthy_reply).0)]));
    let (first_backend, first_hits) = answer();
    let (second_backend, second_hits) = answer();
    assert_eq!(first_hits, second_hits, "equivalent answers must give identical hits");
    assert_eq!(first_backend, second_backend);
}

#[test]
fn literal_search_json_contract() {
    assert_eq!(search_mode(false, false), "text");
    let hits = parse_grep_lines("src/index.js:1:console.log(\"hello\");\n");
    assert!(hits.iter().any(|h| h.path.contains("index.js")), "must find the content, got {hits:?}");
}

#[test]
fn search_hits_knowledge_first() {
    let mut report = aicontext::tools::empty_report("/repo");
    report.packages = vec![aicontext::scan::PackageInfo {
        manager: "npm".to_string(),
        manifest: "package.json".to_string(),
        workspaces: vec![],
        scripts: vec![],
    }];
    let generated = aicontext::state::generated_block(&report, 0, 0, None);
    let state = aicontext::state::render_project_state(&generated, None);
    let knowledge = knowledge_search(".", "Package manager", Some(&state), None);
    assert!(
        knowledge.iter().any(|k| k.file.contains("PROJECT_STATE")),
        "knowledge hits must lead, got {knowledge:?}"
    );
}

#[test]
fn search_no_matches_is_success_with_empty_hits() {
    assert!(parse_grep_lines("").is_empty());
    assert!(knowledge_search(".", "zzz-no-such-string", Some("# Project State\n"), Some("# Patterns\n")).is_empty());
}

#[test]
fn structural_search_uses_ast_grep() {
    // Without the binary the command fails closed with exit 3.
    let missing = aicontext::search::structure_missing_tool();
    assert_eq!(aicontext::output::exit_code_for(missing.code()), 3);
    assert_eq!(search_mode(false, true), "structure");
    let hits = structural_hits(&vec![StructMatch {
        file: Some("src/index.js".to_string()),
        line0: Some(0),
        lines: Some("console.log(\"hello\")".to_string()),
    }]);
    assert!(hits.iter().any(|h| h.path.contains("index.js")), "{hits:?}");
}

#[test]
fn impact_degrades_without_codegraph() {
    assert_eq!(search_mode(true, false), "impact");
    let tried = vec![
        Err(backend_gate(ToolState::Missing, CBM).expect("noted")),
        Err(backend_gate(ToolState::Missing, CODEGRAPH).expect("noted")),
    ];
    assert!(matches!(route_impact(&tried), GraphRoute::Degrade { .. }));
}

#[test]
fn literal_search_prefers_verified_tgrep_backend() {
    assert_eq!(literal_backends(true, true)[0], "tgrep");
    assert_eq!(literal_backends(false, true)[0], "rg");
}

#[test]
fn graph_nodes_find_columns_by_name() {
    let s = |x: &str| Some(x.to_string());
    let cols: Vec<String> = ["qn", "label", "file", "lines", "rank"].iter().map(|c| c.to_string()).collect();
    let nodes = graph_nodes(&cols, &vec![vec![s("app.svc.alpha"), s("Function"), s("src/a.ts"), s("105-185"), None]]);
    assert_eq!(nodes.len(), 1);
    assert_eq!(nodes[0].name, "alpha", "a row without a name takes the last piece of its qualified name");
    assert_eq!(nodes[0].qn, "app.svc.alpha");
    assert_eq!(nodes[0].label, "Function");
    assert_eq!(nodes[0].file, "src/a.ts");
    assert_eq!(nodes[0].line, 105);

    let group_cols: Vec<String> = ["name", "label", "lines", "in", "out"].iter().map(|c| c.to_string()).collect();
    let grouped = group_nodes(&group_cols, "pkg.mod", "src/b.ts", &vec![vec![s("beta"), s("Method"), s("7"), None, None]]);
    assert_eq!(grouped[0].qn, "pkg.mod.beta");
    assert_eq!(grouped[0].name, "beta");
    assert_eq!(grouped[0].file, "src/b.ts");
    assert_eq!(grouped[0].line, 7);
    let bare = group_nodes(&group_cols, "", "f.ts", &vec![vec![s("gamma")]]);
    assert_eq!(bare[0].qn, "gamma");
    assert_eq!(bare[0].label, "", "a short row has empty cells");
    assert_eq!(bare[0].line, 1);
}

#[test]
fn route_step_consults_usable_backends_in_order() {
    // Both usable: codebase-memory-mcp first; its ready answer ends the route.
    let mut tried = Vec::new();
    assert!(matches!(route_step(ToolState::Usable, ToolState::Usable, &mut tried), RouteStep::Run { backend: "codebase-memory-mcp" }));
    let (cbm, _) = drive_cbm(".", "alpha", healthy_reply);
    tried.push(Ok(cbm));
    match route_step(ToolState::Usable, ToolState::Usable, &mut tried) {
        RouteStep::Done(route) => assert_eq!(ready(route).0, "codebase-memory-mcp"),
        other => panic!("a ready answer is terminal: {other:?}"),
    }
    assert_eq!(tried.len(), 1, "codegraph never runs after a ready answer");

    // A disabled codebase-memory-mcp is never run: only a note, then codegraph.
    let mut tried = Vec::new();
    assert!(matches!(route_step(ToolState::Disabled, ToolState::Usable, &mut tried), RouteStep::Run { backend: "codegraph" }));
    assert_eq!(tried.len(), 1);
    assert_eq!(tried[0].as_ref().unwrap_err(), "codebase-memory-mcp: disabled in aicontext.toml");
    tried.push(Ok(codegraph_answer()));
    match route_step(ToolState::Disabled, ToolState::Usable, &mut tried) {
        RouteStep::Done(route) => assert_eq!(ready(route).0, "codegraph"),
        other => panic!("{other:?}"),
    }

    // Neither can run: the route degrades with a note for each.
    let mut tried = Vec::new();
    match route_step(ToolState::Missing, ToolState::Disabled, &mut tried) {
        RouteStep::Done(GraphRoute::Degrade { notes }) => {
            assert_eq!(notes.len(), 2);
            assert!(notes[0].starts_with("codebase-memory-mcp"));
            assert!(notes[1].starts_with("codegraph"));
        }
        other => panic!("{other:?}"),
    }
}

#[test]
fn trace_rows_name_their_relations() {
    let s = |x: &str| Some(x.to_string());
    let cols: Vec<String> = ["hop", "name"].iter().map(|c| c.to_string()).collect();
    let rel = aicontext::search::trace_group(&cols, "app.svc", &vec![vec![s("1"), s("beta")], vec![s("1"), s("")], vec![s("2")]], true);
    assert_eq!(rel, vec![("app.svc.beta".to_string(), true)]);
    let no_name_col = vec!["x".to_string()];
    let rel = aicontext::search::trace_group(&no_name_col, "", &vec![vec![s("gamma")]], false);
    assert_eq!(rel, vec![("gamma".to_string(), false)], "without a name column the first column is read");
}
