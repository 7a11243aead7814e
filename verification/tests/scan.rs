use aicontext::engineering::{EngineeringDetection, EngineeringInfo, EngineeringSurface};
use aicontext::scan::{build_subproject, engineering_summary, finish_subprojects};
use aicontext::scan::{
    candidate_path_ok, cargo_version, child_path, classify, clean_go_use, collect_candidates, container_list,
    dedup_entries, detect_ci, detect_docs, dir_name, expand_entry, is_excluded, is_source_file, language_of,
    language_stats, loc_of, measure, normalize_entry, parse_go_work, subproject_complexity, subproject_manager,
    EntryExpansion, ListSource,
};

fn strings(v: &[&str]) -> Vec<String> {
    v.iter().map(|s| s.to_string()).collect()
}

#[test]
fn languages_come_from_lowercased_extensions() {
    assert_eq!(language_of("src/main.RS"), Some("rust"));
    assert_eq!(language_of("web/app.tsx"), Some("typescript"));
    assert_eq!(language_of("README.md"), Some("markdown"));
    assert_eq!(language_of("Makefile"), None);
    assert_eq!(language_of(".bashrc"), None, "a bare dot-file has no extension");
    assert_eq!(language_of("image.png"), None);
    assert!(is_excluded("node_modules/x/index.js"));
    assert!(is_excluded("a/target/debug/b.rs"));
    assert!(!is_excluded("src/lib.rs"));
    assert!(is_source_file("src/lib.rs"));
    assert!(!is_source_file("vendor/lib.rs"));
    assert!(!is_source_file("LICENSE"));
}

#[test]
fn loc_counts_newlines_and_skips_binaries() {
    assert_eq!(loc_of(&b"a\nb\nc".to_vec()), 2);
    assert_eq!(loc_of(&b"a\nb\n".to_vec()), 2);
    assert_eq!(loc_of(&vec![b'a', 0, b'\n']), 0);
    assert_eq!(loc_of(&vec![]), 0);
}

#[test]
fn complexity_profiles_follow_the_thresholds() {
    assert_eq!(classify(10, 100, 0, 1, None).profile, "small");
    assert_eq!(classify(200, 100, 0, 1, None).profile, "medium");
    assert_eq!(classify(10, 20_000, 0, 1, None).profile, "medium");
    assert_eq!(classify(10, 100, 2, 1, None).profile, "medium");
    assert_eq!(classify(5000, 100, 0, 1, None).profile, "large");
    assert_eq!(classify(10, 300_000, 0, 1, None).profile, "large");
    let c = classify(10, 100, 8, 3, None);
    assert_eq!(c.profile, "large");
    assert_eq!(c.reason, "10 files / 100 LOC / 8 workspaces");
    let o = classify(1, 1, 0, 1, Some("medium"));
    assert_eq!(o.profile, "medium");
    assert_eq!(o.reason, "repository.size override in aicontext.toml");
}

#[test]
fn docs_and_ci_are_listed_in_fixed_order() {
    assert_eq!(detect_docs(&vec![true, false, false, true, true]), strings(&["README.md", "CHANGELOG.md", "AGENTS.md"]));
    assert_eq!(detect_ci(true, false, true, false), strings(&["github-actions", ".circleci/config.yml"]));
    assert!(detect_ci(false, false, false, false).is_empty());
}

#[test]
fn cargo_and_go_manifests_are_read() {
    let toml = "[package]\nname = \"x\"\nversion = \"0.4.1\"\n[dependencies]\nversion_check = \"1\"\n";
    assert_eq!(cargo_version(toml).as_deref(), Some("0.4.1"));
    assert_eq!(cargo_version("[package]\nversion.workspace = true\n"), None);
    assert_eq!(clean_go_use("./svc/api => ../x").as_deref(), Some("./svc/api"));
    assert_eq!(clean_go_use("\"./quoted\"").as_deref(), Some("./quoted"));
    let work = "go 1.22\n\nuse ./tools // local\nuse (\n\t./svc/api\n\t// skipped\n\t./svc/worker\n)\n";
    assert_eq!(parse_go_work(work), strings(&["./tools", "./svc/api", "./svc/worker"]));
}

#[test]
fn declared_entries_are_normalized_not_guessed() {
    assert_eq!(normalize_entry("./apps/web/").as_deref(), Some("apps/web"));
    assert_eq!(normalize_entry("../outside"), None);
    assert_eq!(normalize_entry("/abs"), None);
    assert!(matches!(expand_entry("apps/*"), EntryExpansion::Children(p) if p == "apps"));
    assert!(matches!(expand_entry("apps/web"), EntryExpansion::Exact(p) if p == "apps/web"));
    assert!(matches!(expand_entry("apps/**"), EntryExpansion::Unresolved));
    assert!(matches!(expand_entry("apps/*-web"), EntryExpansion::Unresolved));
    assert!(matches!(expand_entry("!apps/x"), EntryExpansion::Unresolved));
    assert!(matches!(expand_entry("../x"), EntryExpansion::Dropped));
    assert_eq!(child_path("apps", "web"), "apps/web");
    assert_eq!(child_path("", "web"), "web");
    assert!(candidate_path_ok("apps/web"));
    assert!(!candidate_path_ok("apps/.hidden"));
    assert!(!candidate_path_ok("node_modules/pkg"));
    assert_eq!(dedup_entries(&strings(&["a", "b", "a", "c", "b"])), strings(&["a", "b", "c"]));
    assert_eq!(
        collect_candidates(&strings(&["a", "b", "a", "c"]), &vec![true, false, true, true]),
        strings(&["a", "c"])
    );
    assert_eq!(container_list(&vec![]), strings(&["apps", "services", "packages", "libs", "modules"]));
    assert_eq!(container_list(&strings(&["crates"])), strings(&["crates"]));
    assert_eq!(dir_name("apps/web"), "web");
}

#[test]
fn subproject_managers_follow_lockfiles() {
    assert_eq!(subproject_manager("package.json", false, false, false, false, false).as_deref(), Some("npm"));
    assert_eq!(subproject_manager("package.json", false, true, true, false, false).as_deref(), Some("bun"));
    assert_eq!(subproject_manager("package.json", false, false, false, true, true).as_deref(), Some("pnpm"));
    assert_eq!(subproject_manager("Cargo.toml", true, true, true, true, true).as_deref(), Some("cargo"));
    assert_eq!(subproject_manager("go.mod", false, false, false, false, false).as_deref(), Some("go"));
    assert_eq!(subproject_manager("pom.xml", false, false, false, false, false), None);
}

#[test]
fn measurement_counts_only_source_files_under_the_prefix() {
    let files = strings(&["apps/web/a.ts", "apps/web/b.md", "apps/web/node_modules/x.js", "apps/api/c.rs", "LICENSE"]);
    let locs = vec![10, 5, 100, 7, 3];
    let (n, loc, langs) = measure(&files, &locs, "apps/web/");
    assert_eq!((n, loc), (2, 15));
    assert_eq!(langs.len(), 2);
    let (n, loc, _) = measure(&files, &locs, "");
    assert_eq!((n, loc), (3, 22));
    let c = subproject_complexity("apps/web", &files, &locs);
    assert_eq!((c.source_files, c.loc, c.workspaces), (2, 15, 0));
    assert_eq!(c.profile, "small");
    let stats = language_stats(&files, &locs);
    let rust = stats.iter().find(|s| s.language == "rust").expect("rust stat");
    assert_eq!((rust.files, rust.loc), (1, 7));
    assert!(stats.iter().all(|s| s.language != "javascript"));
}

/// One directory of a synthetic tree: the facts the detector reads there.
fn dir_facts(manifests: [bool; 4], agents_md: bool, name: Option<&str>) -> aicontext::scan::SubprojectFacts {
    aicontext::scan::SubprojectFacts {
        manifests: manifests.to_vec(),
        agents_md,
        locks: vec![false; 5],
        manifest_name: name.map(|n| n.to_string()),
        scripts: vec![],
        initialized: false,
    }
}

/// Detection over a synthetic tree, step by step as the scan runs it:
/// declared entries first, else the default containers one level deep.
/// `dirs` lists the directories that exist, with their facts.
fn detect(
    declared_raw: &[&str],
    dirs: &[(&str, aicontext::scan::SubprojectFacts)],
) -> (Vec<aicontext::scan::Subproject>, aicontext::scan::SubprojectsSource) {
    let exists = |rel: &str| candidate_path_ok(rel) && dirs.iter().any(|(d, _)| *d == rel);
    let children = |prefix: &str| -> Vec<String> {
        dirs.iter()
            .filter_map(|(d, _)| {
                let rest = d.strip_prefix(prefix)?.strip_prefix('/')?;
                if rest.contains('/') { None } else { Some(child_path(prefix, rest)) }
            })
            .collect()
    };
    let declared = dedup_entries(&strings(declared_raw));
    let expansions: Vec<EntryExpansion> = declared.iter().map(|e| expand_entry(e)).collect();
    let declared_children: Vec<Vec<String>> = expansions
        .iter()
        .map(|e| match e {
            EntryExpansion::Children(prefix) => children(prefix),
            _ => vec![],
        })
        .collect();
    let mut declared_usable: Vec<bool> = Vec::new();
    for (e, kids) in expansions.iter().zip(&declared_children) {
        match e {
            EntryExpansion::Exact(p) => declared_usable.push(exists(p)),
            EntryExpansion::Children(_) => declared_usable.extend(kids.iter().map(|k| exists(k))),
            _ => {}
        }
    }
    let containers = container_list(&vec![]);
    let container_usable: Vec<bool> = containers.iter().map(|c| exists(c)).collect();
    let container_children: Vec<Vec<String>> = containers
        .iter()
        .zip(&container_usable)
        .map(|(c, ok)| if *ok { children(c) } else { vec![] })
        .collect();
    let child_usable: Vec<bool> = container_children.iter().flatten().map(|k| exists(k)).collect();
    let (candidates, unresolved, scanned, used_declared) = aicontext::scan::select_candidates(
        &declared,
        &expansions,
        &declared_children,
        &declared_usable,
        &containers,
        &container_usable,
        &container_children,
        &child_usable,
    );
    let mut built = Vec::new();
    for rel in &candidates {
        let facts = &dirs.iter().find(|(d, _)| d == rel).expect("facts").1;
        let complexity = subproject_complexity(rel, &vec![], &vec![]);
        if let Some(s) = aicontext::scan::build_subproject(rel, facts, complexity, false) {
            built.push(s);
        }
    }
    let from = if used_declared { ListSource::Declared } else { ListSource::Scanned };
    aicontext::scan::finish_subprojects(from, built, declared, unresolved, scanned)
}

#[test]
fn containers_fallback_when_nothing_is_declared() {
    let dirs = [("apps", dir_facts([false; 4], false, None)), ("apps/web", dir_facts([true, false, false, false], false, Some("@t/web")))];
    let (subs, source) = detect(&[], &dirs);
    assert_eq!(source.mode, "containers");
    assert_eq!(source.containers, vec!["apps"]);
    assert_eq!(subs.iter().map(|s| s.path.as_str()).collect::<Vec<_>>(), ["apps/web"]);
    assert_eq!(subs[0].manager.as_deref(), Some("npm"));
}

#[test]
fn agents_marker_without_manifest_is_detected() {
    let dirs = [("apps", dir_facts([false; 4], false, None)), ("apps/web", dir_facts([false; 4], true, None))];
    let (subs, _) = detect(&[], &dirs);
    let s = &subs[0];
    assert_eq!(s.path, "apps/web");
    assert_eq!(s.kind, "agents-marker");
    assert_eq!(s.manifest, None);
    assert_eq!(s.manager, None);
    assert_eq!(s.name, "web");
    assert!(s.agents_md);
}

#[test]
fn unresolved_globs_are_reported_not_guessed() {
    let dirs = [("apps", dir_facts([false; 4], false, None)), ("apps/web", dir_facts([true, false, false, false], false, Some("@t/web")))];
    let (_, source) = detect(&["apps/**"], &dirs);
    assert_eq!(source.unresolved, vec!["apps/**"]);
    assert_eq!(source.declared, vec!["apps/**"]);
}

#[test]
fn detects_engineering_managed() {
    let surface = |p: &str| EngineeringSurface {
        surface: format!("s-{p}"),
        path: p.to_string(),
        provider: "mystery-bp".to_string(),
        instructions: format!("{p}/AGENTS.md"),
    };
    let info = EngineeringInfo {
        project: "demo".to_string(),
        recipe: "GP-99".to_string(),
        recipe_version: None,
        catalog_version: "1.1.0".to_string(),
        database_profile: None,
        plan_fingerprint: "abc123".to_string(),
        surfaces: vec![surface("frontend"), surface("backend")],
        manifest_schema_version: 2,
        map_schema_version: 1,
        provenance_present: true,
    };
    let declared = info.declared_paths();
    assert_eq!(declared, vec!["backend".to_string(), "frontend".to_string()]);
    let detection = EngineeringDetection::Supported(info);
    let summary = engineering_summary(&detection).expect("engineering object");
    assert_eq!(summary.origin, "engineering-platform");
    assert!(summary.supported);
    assert_eq!(summary.recipe.as_deref(), Some("GP-99"));

    let usable = vec![true, true];
    let candidates = collect_candidates(&declared, &usable);
    let mut built = Vec::new();
    for rel in &candidates {
        let facts = dir_facts([true, false, false, false], false, Some(rel.as_str()));
        let complexity = subproject_complexity(rel, &vec![], &vec![]);
        built.push(build_subproject(rel, &facts, complexity, true).expect("a declared surface is a subproject"));
    }
    let (subs, source) = finish_subprojects(ListSource::Engineering, built, declared, vec![], vec![]);
    assert_eq!(source.mode, "engineering");
    assert_eq!(subs.iter().map(|s| s.path.as_str()).collect::<Vec<_>>(), ["backend", "frontend"]);
    assert!(subs.iter().all(|s| s.kind == "engineering-surface"));

    assert!(engineering_summary(&EngineeringDetection::Absent).is_none());
    let unsupported = EngineeringDetection::Unsupported { reason: "x".to_string(), manifest_version: None, map_version: None };
    assert!(!engineering_summary(&unsupported).unwrap().supported);
}

#[test]
fn select_candidates_prefers_declared_paths() {
    let declared = strings(&["apps/*", "tools/{a,b}", "lib"]);
    let expansions: Vec<EntryExpansion> = declared.iter().map(|e| expand_entry(e)).collect();
    let declared_children = vec![strings(&["apps/web", "apps/api"]), vec![], vec![]];
    let containers = strings(&["apps", "packages"]);
    let (candidates, unresolved, scanned, used) = aicontext::scan::select_candidates(
        &declared,
        &expansions,
        &declared_children,
        &vec![true, false, true],
        &containers,
        &vec![true, false],
        &vec![strings(&["apps/web"]), vec![]],
        &vec![true],
    );
    assert!(used);
    assert_eq!(candidates, strings(&["apps/web", "lib"]));
    assert_eq!(unresolved, strings(&["tools/{a,b}"]));
    assert!(scanned.is_empty());

    let (candidates, unresolved, scanned, used) = aicontext::scan::select_candidates(
        &declared,
        &expansions,
        &declared_children,
        &vec![false, false, false],
        &strings(&["apps", "packages", "apps"]),
        &vec![true, false, true],
        &vec![strings(&["apps/web"]), vec![], strings(&["apps/web"])],
        &vec![true, true],
    );
    assert!(!used);
    assert_eq!(candidates, strings(&["apps/web"]));
    assert_eq!(unresolved, strings(&["tools/{a,b}"]));
    assert_eq!(scanned, strings(&["apps"]));
}

#[test]
fn select_candidates_skips_hidden_and_excluded_paths() {
    let declared = strings(&[".cache/app", "node_modules/pkg", "apps/web"]);
    let expansions: Vec<EntryExpansion> = declared.iter().map(|e| EntryExpansion::Exact(e.clone())).collect();
    let (candidates, _, _, used) = aicontext::scan::select_candidates(
        &declared,
        &expansions,
        &vec![vec![], vec![], vec![]],
        &vec![true, true, false],
        &vec![],
        &vec![],
        &vec![],
        &vec![],
    );
    assert!(!used, "a hidden or excluded path never counts, even flagged usable");
    assert!(candidates.is_empty());
}

#[test]
fn declared_entries_keep_their_reading_order() {
    let r = aicontext::scan::declared_order(strings(&["apps/*"]), strings(&["libs/*"]), strings(&["crates/a"]), vec![], strings(&["tools/x"]));
    assert_eq!(r, strings(&["apps/*", "libs/*", "crates/a", "tools/x"]));
}
