use vstd::prelude::*;

use crate::config::RepoConfig;
use crate::text::{
    chars_of, contains, contains_str, decimal, digit_run, find, is_digit, join, lines, lines_exec, lowercase, push_decimal,
    push_str, same_str, split_chars, split_on, starts_with, starts_with_str, string_from, string_of, to_lower, trim, trim_end_char,
    trim_string,
};
use crate::engineering::EngineeringDetection;
use crate::tools::ToolInfo;

verus! {

/// Versioned contract id for the `scan --json` report.
pub const SCAN_SCHEMA: &'static str = "aicontext/scan/v2";

#[derive(Debug, Clone)]
pub struct GitInfo {
    pub root: String,
    pub head: Option<String>,
    pub short_head: Option<String>,
    pub branch: Option<String>,
    pub tracked_files: usize,
}

#[derive(Debug, Clone)]
pub struct LanguageStat {
    pub language: String,
    pub files: usize,
    pub loc: u64,
}

#[derive(Debug, Clone)]
pub struct PackageInfo {
    pub manager: String,
    pub manifest: String,
    pub workspaces: Vec<String>,
    pub scripts: Vec<String>,
}

#[derive(Debug, Clone)]
pub struct ComplexityInfo {
    pub profile: String,
    pub source_files: usize,
    pub loc: u64,
    pub workspaces: usize,
    pub languages: usize,
    pub reason: String,
}

#[derive(Debug, Clone)]
pub struct VersionCandidate {
    pub source: String,
    pub version: String,
}

/// One detected subproject (a workspace member, a container child, or a
/// declared `extra` entry) with its own measured facts. Paths are
/// repo-relative with `/` separators.
#[derive(Debug, Clone)]
pub struct Subproject {
    pub path: String,
    pub name: String,
    pub kind: String,
    pub manifest: Option<String>,
    pub manager: Option<String>,
    pub commands: Vec<String>,
    pub agents_md: bool,
    pub initialized: bool,
    pub complexity: ComplexityInfo,
}

/// Provenance of the subproject list: how it was resolved and what was
/// rejected instead of guessed.
#[derive(Debug, Clone)]
pub struct SubprojectsSource {
    pub mode: String,
    pub declared: Vec<String>,
    pub unresolved: Vec<String>,
    pub containers: Vec<String>,
}

/// Deterministic repository facts (`scan --json`). `tools` lists each
/// probed tool once, in probing order.
#[derive(Debug, Clone)]
pub struct ScanReport {
    pub schema: String,
    pub git: GitInfo,
    pub languages: Vec<LanguageStat>,
    pub packages: Vec<PackageInfo>,
    pub commands: Vec<String>,
    pub tools: Vec<ToolInfo>,
    pub complexity: ComplexityInfo,
    pub version_candidates: Vec<VersionCandidate>,
    pub docs: Vec<String>,
    pub ci: Vec<String>,
    pub subprojects: Vec<Subproject>,
    pub subprojects_source: SubprojectsSource,
    /// Engineering Platform origin, when its contracts are present.
    pub engineering: Option<EngineeringSummary>,
}

/// The Engineering Platform facts of the scan report: its origin, whether
/// the contracts are understood, and the recipe they name.
#[derive(Debug, Clone)]
pub struct EngineeringSummary {
    pub origin: String,
    pub supported: bool,
    pub recipe: Option<String>,
}

pub open spec fn summary_view(s: Option<EngineeringSummary>) -> Option<(Seq<char>, bool, Option<Seq<char>>)> {
    match s {
        Some(e) => Some((e.origin@, e.supported, sv(e.recipe))),
        None => None,
    }
}

/// No summary for a standalone repository; `engineering-platform` with the
/// recipe for understood contracts; unsupported contracts without one.
pub open spec fn engineering_summary_spec(d: EngineeringDetection) -> Option<(Seq<char>, bool, Option<Seq<char>>)> {
    match d {
        EngineeringDetection::Absent => None,
        EngineeringDetection::Supported(info) => Some(("engineering-platform"@, true, Some(info.recipe@))),
        EngineeringDetection::Unsupported { .. } => Some(("engineering-platform"@, false, None)),
    }
}

pub fn engineering_summary(d: &EngineeringDetection) -> (r: Option<EngineeringSummary>)
    ensures
        summary_view(r) == engineering_summary_spec(*d),
{
    match d {
        EngineeringDetection::Absent => None,
        EngineeringDetection::Supported(info) => Some(EngineeringSummary {
            origin: string_from("engineering-platform"),
            supported: true,
            recipe: Some(info.recipe.clone()),
        }),
        EngineeringDetection::Unsupported { .. } => Some(EngineeringSummary {
            origin: string_from("engineering-platform"),
            supported: false,
            recipe: None,
        }),
    }
}

/// The version source `init` seeds: the first detected candidate's file,
/// else `package.json`.
pub open spec fn seed_version_source_spec(candidates: Seq<VersionCandidate>) -> Seq<char> {
    if candidates.len() > 0 { candidates[0].source@ } else { "package.json"@ }
}

pub fn seed_version_source(candidates: &Vec<VersionCandidate>) -> (r: String)
    ensures
        r@ == seed_version_source_spec(candidates@),
{
    if candidates.len() > 0 {
        candidates[0].source.clone()
    } else {
        string_from("package.json")
    }
}

// ---------------------------------------------------------------------------
// Files and languages
// ---------------------------------------------------------------------------

/// What `Path::extension` gives for a path (the part of the file name after
/// its last `.`, for a file name that is not a bare dot-file), as text.
pub uninterp spec fn path_extension(p: Seq<char>) -> Option<Seq<char>>;

/// The extension of a path (`Path::extension`, when it is valid UTF-8).
#[verifier::external_body]
fn extension_of(p: &str) -> (r: Option<String>)
    ensures
        match r {
            Some(e) => path_extension(p@) == Some(e@),
            None => path_extension(p@) is None,
        },
{
    std::path::Path::new(p).extension().and_then(|e| e.to_str()).map(|e| e.to_string())
}

/// The language of a (lowercased) extension, for the extensions that count
/// as source.
pub open spec fn language_of_ext(e: Seq<char>) -> Option<Seq<char>> {
    if e == "ts"@ || e == "tsx"@ || e == "js"@ || e == "jsx"@ || e == "mjs"@ || e == "cjs"@ {
        Some("typescript"@)
    } else if e == "rs"@ {
        Some("rust"@)
    } else if e == "go"@ {
        Some("go"@)
    } else if e == "py"@ {
        Some("python"@)
    } else if e == "java"@ {
        Some("java"@)
    } else if e == "c"@ || e == "h"@ {
        Some("c"@)
    } else if e == "cpp"@ || e == "cc"@ || e == "cxx"@ || e == "hpp"@ {
        Some("cpp"@)
    } else if e == "cs"@ {
        Some("csharp"@)
    } else if e == "rb"@ {
        Some("ruby"@)
    } else if e == "php"@ {
        Some("php"@)
    } else if e == "swift"@ {
        Some("swift"@)
    } else if e == "kt"@ || e == "kts"@ {
        Some("kotlin"@)
    } else if e == "md"@ || e == "mdx"@ {
        Some("markdown"@)
    } else if e == "yml"@ || e == "yaml"@ {
        Some("yaml"@)
    } else if e == "toml"@ {
        Some("toml"@)
    } else if e == "json"@ {
        Some("json"@)
    } else if e == "sh"@ || e == "bash"@ {
        Some("shell"@)
    } else {
        None
    }
}

pub open spec fn language_spec(path: Seq<char>) -> Option<Seq<char>> {
    match path_extension(path) {
        Some(e) => language_of_ext(lowercase(e)),
        None => None,
    }
}

fn language_of_ext_exec(e: &str) -> (r: Option<&'static str>)
    ensures
        match r {
            Some(l) => language_of_ext(e@) == Some(l@),
            None => language_of_ext(e@) is None,
        },
{
    let is = |x: &str| -> (b: bool) ensures b == (e@ == x@) { same_str(e, x) };
    if is("ts") || is("tsx") || is("js") || is("jsx") || is("mjs") || is("cjs") {
        Some("typescript")
    } else if is("rs") {
        Some("rust")
    } else if is("go") {
        Some("go")
    } else if is("py") {
        Some("python")
    } else if is("java") {
        Some("java")
    } else if is("c") || is("h") {
        Some("c")
    } else if is("cpp") || is("cc") || is("cxx") || is("hpp") {
        Some("cpp")
    } else if is("cs") {
        Some("csharp")
    } else if is("rb") {
        Some("ruby")
    } else if is("php") {
        Some("php")
    } else if is("swift") {
        Some("swift")
    } else if is("kt") || is("kts") {
        Some("kotlin")
    } else if is("md") || is("mdx") {
        Some("markdown")
    } else if is("yml") || is("yaml") {
        Some("yaml")
    } else if is("toml") {
        Some("toml")
    } else if is("json") {
        Some("json")
    } else if is("sh") || is("bash") {
        Some("shell")
    } else {
        None
    }
}

/// The language a file Git lists counts as, by its lowercased extension.
pub fn language_of(path: &str) -> (r: Option<&'static str>)
    ensures
        match r {
            Some(l) => language_spec(path@) == Some(l@),
            None => language_spec(path@) is None,
        },
{
    match extension_of(path) {
        Some(e) => language_of_ext_exec(to_lower(e.as_str()).as_str()),
        None => None,
    }
}

/// Path segments that mark vendored, built or tool-managed files.
pub open spec fn excluded_segments() -> Seq<Seq<char>> {
    seq!["node_modules/"@, "target/"@, "dist/"@, "build/"@, "vendor/"@, ".git/"@, ".aicontext/"@, ".tgrep/"@,
        ".engineering/"@, "__pycache__/"@, ".venv/"@, "venv/"@]
}

pub open spec fn is_excluded_spec(path: Seq<char>) -> bool {
    exists|i: int| 0 <= i < 12 && contains(path, #[trigger] excluded_segments()[i])
}

pub const EXCLUDED: [&'static str; 12] = [
    "node_modules/", "target/", "dist/", "build/", "vendor/", ".git/", ".aicontext/", ".tgrep/", ".engineering/",
    "__pycache__/", ".venv/", "venv/",
];

pub fn is_excluded(path: &str) -> (r: bool)
    ensures
        r == is_excluded_spec(path@),
{
    let mut i: usize = 0;
    while i < 12
        invariant
            i <= 12,
            forall|k: int| 0 <= k < i ==> !contains(path@, #[trigger] excluded_segments()[k]),
        decreases 12 - i,
    {
        assert(excluded_segments()[i as int] == EXCLUDED[i as int]@);
        if contains_str(path, EXCLUDED[i]) {
            return true;
        }
        i += 1;
    }
    false
}

/// A file Git lists is measured when it is not excluded and has a source
/// language.
pub fn is_source_file(path: &str) -> (r: bool)
    ensures
        r == (!is_excluded_spec(path@) && language_spec(path@) is Some),
{
    !is_excluded(path) && language_of(path).is_some()
}

pub open spec fn count_newlines(b: Seq<u8>) -> nat
    decreases b.len(),
{
    if b.len() == 0 { 0 } else { count_newlines(b.drop_last()) + if b.last() == 10 { 1nat } else { 0nat } }
}

proof fn lemma_count_newlines_le(b: Seq<u8>)
    ensures
        count_newlines(b) <= b.len(),
    decreases b.len(),
{
    if b.len() > 0 {
        lemma_count_newlines_le(b.drop_last());
    }
}

/// Lines of a file's bytes: its newline count, or 0 for a binary file
/// (one holding a NUL byte). Files over 1 MB count 0 too (the caller does
/// not read them).
pub fn loc_of(bytes: &Vec<u8>) -> (r: u64)
    ensures
        r == if (exists|i: int| 0 <= i < bytes.len() && bytes@[i] == 0) { 0 } else { count_newlines(bytes@) },
{
    let mut n: u64 = 0;
    let mut i: usize = 0;
    while i < bytes.len()
        invariant
            i <= bytes.len(),
            n == count_newlines(bytes@.take(i as int)),
            n <= i,
            forall|k: int| 0 <= k < i ==> bytes@[k] != 0,
        decreases bytes.len() - i,
    {
        assert(bytes@.take(i + 1).drop_last() =~= bytes@.take(i as int));
        if bytes[i] == 0 {
            return 0;
        }
        if bytes[i] == 10 {
            n = n + 1;
        }
        i += 1;
    }
    assert(bytes@.take(i as int) =~= bytes@);
    n
}

// ---------------------------------------------------------------------------
// Complexity
// ---------------------------------------------------------------------------

pub open spec fn counts_reason(source_files: nat, loc: nat, workspaces: nat) -> Seq<char> {
    decimal(source_files) + " files / "@ + decimal(loc) + " LOC / "@ + decimal(workspaces) + " workspaces"@
}

/// The size profile: the `repository.size` override when set; else large
/// (5000 files, 300k LOC or 8 workspaces), medium (200 files, 20k LOC or 2
/// workspaces) or small.
pub open spec fn profile_spec(source_files: nat, loc: nat, workspaces: nat) -> Seq<char> {
    if source_files >= 5000 || loc >= 300_000 || workspaces >= 8 {
        "large"@
    } else if source_files >= 200 || loc >= 20_000 || workspaces >= 2 {
        "medium"@
    } else {
        "small"@
    }
}

pub fn classify(source_files: usize, loc: u64, workspaces: usize, languages: usize, override_size: Option<&str>) -> (r: ComplexityInfo)
    ensures
        r.source_files == source_files && r.loc == loc && r.workspaces == workspaces && r.languages == languages,
        match override_size {
            Some(size) => r.profile@ == size@ && r.reason@ == "repository.size override in aicontext.toml"@,
            None => r.profile@ == profile_spec(source_files as nat, loc as nat, workspaces as nat)
                && r.reason@ == counts_reason(source_files as nat, loc as nat, workspaces as nat),
        },
{
    match override_size {
        Some(size) => ComplexityInfo {
            profile: string_from(size),
            source_files,
            loc,
            workspaces,
            languages,
            reason: string_from("repository.size override in aicontext.toml"),
        },
        None => {
            let profile = if source_files >= 5000 || loc >= 300_000 || workspaces >= 8 {
                "large"
            } else if source_files >= 200 || loc >= 20_000 || workspaces >= 2 {
                "medium"
            } else {
                "small"
            };
            let mut reason = String::new();
            push_decimal(&mut reason, source_files as u64);
            push_str(&mut reason, " files / ");
            push_decimal(&mut reason, loc);
            push_str(&mut reason, " LOC / ");
            push_decimal(&mut reason, workspaces as u64);
            push_str(&mut reason, " workspaces");
            ComplexityInfo { profile: string_from(profile), source_files, loc, workspaces, languages, reason }
        },
    }
}

// ---------------------------------------------------------------------------
// Docs, CI, versions
// ---------------------------------------------------------------------------

/// The documentation entry points that exist (`exists[i]` for README.md,
/// docs, docs/architecture, CHANGELOG.md, AGENTS.md), in that order.
pub open spec fn docs_spec(exists: Seq<bool>) -> Seq<Seq<char>> {
    let names = seq!["README.md"@, "docs"@, "docs/architecture"@, "CHANGELOG.md"@, "AGENTS.md"@];
    crate::check::missing_paths(names, exists.map_values(|b: bool| !b))
}

pub const DOC_CANDIDATES: [&'static str; 5] = ["README.md", "docs", "docs/architecture", "CHANGELOG.md", "AGENTS.md"];

pub fn detect_docs(exists: &Vec<bool>) -> (r: Vec<String>)
    requires
        exists.len() == 5,
    ensures
        r.deep_view() == docs_spec(exists@),
{
    let names: Vec<String> = vec![
        string_from(DOC_CANDIDATES[0]),
        string_from(DOC_CANDIDATES[1]),
        string_from(DOC_CANDIDATES[2]),
        string_from(DOC_CANDIDATES[3]),
        string_from(DOC_CANDIDATES[4]),
    ];
    let mut absent: Vec<bool> = Vec::new();
    let mut i: usize = 0;
    while i < 5
        invariant
            i <= 5,
            exists.len() == 5,
            absent@ == exists@.take(i as int).map_values(|b: bool| !b),
        decreases 5 - i,
    {
        absent.push(!exists[i]);
        assert(exists@.take(i + 1).map_values(|b: bool| !b) =~= exists@.take(i as int).map_values(|b: bool| !b).push(!exists@[i as int]));
        i += 1;
    }
    assert(exists@.take(5) =~= exists@);
    assert(names.deep_view() =~= seq!["README.md"@, "docs"@, "docs/architecture"@, "CHANGELOG.md"@, "AGENTS.md"@]);
    crate::check::missing_paths_exec(&names, &absent)
}

/// The CI systems found: `github-actions` for `.github/workflows`, then the
/// config files that exist among `.gitlab-ci.yml`, `.circleci/config.yml`,
/// `azure-pipelines.yml`.
pub fn detect_ci(workflows: bool, gitlab: bool, circleci: bool, azure: bool) -> (r: Vec<String>)
    ensures
        r.deep_view() == (if workflows { seq!["github-actions"@] } else { seq![] }) + (if gitlab { seq![".gitlab-ci.yml"@] } else { seq![] })
            + (if circleci { seq![".circleci/config.yml"@] } else { seq![] }) + (if azure { seq!["azure-pipelines.yml"@] } else { seq![] }),
{
    let mut ci: Vec<String> = Vec::new();
    if workflows {
        ci.push(string_from("github-actions"));
    }
    if gitlab {
        ci.push(string_from(".gitlab-ci.yml"));
    }
    if circleci {
        ci.push(string_from(".circleci/config.yml"));
    }
    if azure {
        ci.push(string_from("azure-pipelines.yml"));
    }
    assert(ci.deep_view() =~= (if workflows { seq!["github-actions"@] } else { seq![] }) + (if gitlab { seq![".gitlab-ci.yml"@] } else { seq![] })
        + (if circleci { seq![".circleci/config.yml"@] } else { seq![] }) + (if azure { seq!["azure-pipelines.yml"@] } else { seq![] }));
    ci
}

/// `s` without leading spaces, `=` and `"`.
pub open spec fn trim_version_start(s: Seq<char>) -> Seq<char>
    decreases s.len(),
{
    if s.len() > 0 && (s[0] == ' ' || s[0] == '=' || s[0] == '"') { trim_version_start(s.drop_first()) } else { s }
}

/// `s` without leading `c` characters.
pub open spec fn trim_start_char(s: Seq<char>, c: char) -> Seq<char>
    decreases s.len(),
{
    if s.len() > 0 && s[0] == c { trim_start_char(s.drop_first(), c) } else { s }
}

/// The version a `version = "x.y.z"` line of Cargo.toml declares: what
/// follows `version`, without spaces, `=` and quotes, when it starts with
/// a digit.
pub open spec fn version_line(t: Seq<char>) -> Option<Seq<char>> {
    if starts_with(t, "version"@) {
        let v = trim_start_char(trim_end_char(trim(trim_end_char(trim_version_start(t.skip(7)), '"')), '"'), '"');
        if v.len() > 0 && is_digit(v[0]) { Some(v) } else { None }
    } else {
        None
    }
}

/// The first version line among the (trimmed) lines.
pub open spec fn cargo_version_spec(ls: Seq<Seq<char>>) -> Option<Seq<char>>
    decreases ls.len(),
{
    if ls.len() == 0 {
        None
    } else {
        match version_line(trim(ls[0])) {
            Some(v) => Some(v),
            None => cargo_version_spec(ls.drop_first()),
        }
    }
}

fn version_line_exec(t: &Vec<char>) -> (r: Option<String>)
    ensures
        match r {
            Some(v) => version_line(t@) == Some(v@),
            None => version_line(t@) is None,
        },
{
    let key = chars_of("version");
    if !crate::text::starts_with_at(t, 0, &key) {
        assert(t@.subrange(0, t@.len() as int) =~= t@);
        return None;
    }
    assert(t@.subrange(0, t@.len() as int) =~= t@);
    proof {
        reveal_strlit("version");
    }
    // leading spaces, '=' and quotes
    let mut a: usize = 7;
    assert(t@.skip(7) =~= t@.subrange(7, t@.len() as int));
    while a < t.len() && (t[a] == ' ' || t[a] == '=' || t[a] == '"')
        invariant
            7 <= a <= t.len(),
            trim_version_start(t@.skip(7)) == trim_version_start(t@.subrange(a as int, t@.len() as int)),
        decreases t.len() - a,
    {
        assert(t@.subrange(a as int, t@.len() as int).drop_first() =~= t@.subrange(a + 1, t@.len() as int));
        a += 1;
    }
    // trailing quotes
    let mut b: usize = t.len();
    while b > a && t[b - 1] == '"'
        invariant
            a <= b <= t.len(),
            trim_end_char(trim_version_start(t@.skip(7)), '"') == trim_end_char(t@.subrange(a as int, b as int), '"'),
        decreases b - a,
    {
        assert(t@.subrange(a as int, b as int).drop_last() =~= t@.subrange(a as int, b - 1));
        b -= 1;
    }
    let mid = crate::text::string_of_range(t, a, b);
    let trimmed = chars_of(trim_string(mid.as_str()).as_str());
    // quotes at both ends
    let mut e: usize = trimmed.len();
    assert(trimmed@.subrange(0, trimmed@.len() as int) =~= trimmed@);
    while e > 0 && trimmed[e - 1] == '"'
        invariant
            e <= trimmed.len(),
            trim_end_char(trimmed@, '"') == trim_end_char(trimmed@.subrange(0, e as int), '"'),
        decreases e,
    {
        assert(trimmed@.subrange(0, e as int).drop_last() =~= trimmed@.subrange(0, e - 1));
        e -= 1;
    }
    assert(trimmed@.subrange(0, trimmed@.len() as int) =~= trimmed@);
    let mut s: usize = 0;
    while s < e && trimmed[s] == '"'
        invariant
            s <= e <= trimmed.len(),
            trim_start_char(trimmed@.subrange(0, e as int), '"') == trim_start_char(trimmed@.subrange(s as int, e as int), '"'),
        decreases e - s,
    {
        assert(trimmed@.subrange(s as int, e as int).drop_first() =~= trimmed@.subrange(s + 1, e as int));
        s += 1;
    }
    assert(trim_end_char(trimmed@.subrange(0, e as int), '"') == trimmed@.subrange(0, e as int)) by {
        assert(e == 0 || trimmed@.subrange(0, e as int).last() != '"');
    }
    let v = crate::text::string_of_range(&trimmed, s, e);
    assert(trim_start_char(trimmed@.subrange(s as int, e as int), '"') == trimmed@.subrange(s as int, e as int)) by {
        assert(s == e || trimmed@.subrange(s as int, e as int)[0] != '"');
    }
    if s < e && '0' <= trimmed[s] && trimmed[s] <= '9' {
        assert(v@[0] == trimmed@[s as int]);
        Some(v)
    } else {
        None
    }
}

/// The version Cargo.toml declares: the first `version…` line with a
/// digit-led value.
pub fn cargo_version(text: &str) -> (r: Option<String>)
    ensures
        match r {
            Some(v) => cargo_version_spec(lines(text@)) == Some(v@),
            None => cargo_version_spec(lines(text@)) is None,
        },
{
    let ls = lines_exec(&chars_of(text));
    let ghost lv = ls@.map_values(|l: Vec<char>| l@);
    let mut i: usize = 0;
    assert(lv.skip(0) =~= lv);
    while i < ls.len()
        invariant
            i <= ls.len(),
            lv == ls@.map_values(|l: Vec<char>| l@),
            lv == lines(text@),
            cargo_version_spec(lv) == cargo_version_spec(lv.skip(i as int)),
        decreases ls.len() - i,
    {
        assert(lv.skip(i as int).drop_first() =~= lv.skip(i + 1));
        assert(lv.skip(i as int)[0] == ls@[i as int]@);
        let t = chars_of(trim_string(string_of(&ls[i]).as_str()).as_str());
        match version_line_exec(&t) {
            Some(v) => {
                return Some(v);
            },
            None => {},
        }
        i += 1;
    }
    assert(lv.skip(i as int) =~= Seq::<Seq<char>>::empty());
    None
}

// ---------------------------------------------------------------------------
// Declared subprojects
// ---------------------------------------------------------------------------

/// The part of `s` before the first `p` (all of it without one).
pub open spec fn before(s: Seq<char>, p: Seq<char>) -> Seq<char> {
    match find(s, p) {
        Some(k) => s.take(k),
        None => s,
    }
}

fn before_exec(s: &str, p: &str) -> (r: String)
    ensures
        r@ == before(s@, p@),
{
    let v = chars_of(s);
    match crate::text::find_exec(&v, &chars_of(p), 0) {
        Some(k) => {
            proof {
                crate::text::lemma_find_from(v@, p@, 0);
            }
            let r = crate::text::string_of_range(&v, 0, k);
            assert(r@ =~= v@.take(k as int));
            r
        },
        None => string_from(s),
    }
}

/// A module path of a `use` directive: before any `=>`, unquoted.
pub open spec fn clean_go_use_spec(line: Seq<char>) -> Option<Seq<char>> {
    let left = trim(before(line, "=>"@));
    let path = trim(trim_start_char(trim_end_char(left, '"'), '"'));
    if path.len() == 0 || path == ")"@ { None } else { Some(path) }
}

fn unquote(v: &Vec<char>) -> (r: String)
    ensures
        r@ == trim_start_char(trim_end_char(v@, '"'), '"'),
{
    let mut e: usize = v.len();
    assert(v@.subrange(0, v@.len() as int) =~= v@);
    while e > 0 && v[e - 1] == '"'
        invariant
            e <= v.len(),
            trim_end_char(v@, '"') == trim_end_char(v@.subrange(0, e as int), '"'),
        decreases e,
    {
        assert(v@.subrange(0, e as int).drop_last() =~= v@.subrange(0, e - 1));
        e -= 1;
    }
    assert(trim_end_char(v@.subrange(0, e as int), '"') == v@.subrange(0, e as int)) by {
        assert(e == 0 || v@.subrange(0, e as int).last() != '"');
    }
    let mut b: usize = 0;
    while b < e && v[b] == '"'
        invariant
            b <= e <= v.len(),
            trim_start_char(v@.subrange(0, e as int), '"') == trim_start_char(v@.subrange(b as int, e as int), '"'),
        decreases e - b,
    {
        assert(v@.subrange(b as int, e as int).drop_first() =~= v@.subrange(b + 1, e as int));
        b += 1;
    }
    assert(trim_start_char(v@.subrange(b as int, e as int), '"') == v@.subrange(b as int, e as int)) by {
        assert(b == e || v@.subrange(b as int, e as int)[0] != '"');
    }
    crate::text::string_of_range(v, b, e)
}

pub fn clean_go_use(line: &str) -> (r: Option<String>)
    ensures
        match r {
            Some(p) => clean_go_use_spec(line@) == Some(p@),
            None => clean_go_use_spec(line@) is None,
        },
{
    let left = trim_string(before_exec(line, "=>").as_str());
    let path = trim_string(unquote(&chars_of(left.as_str())).as_str());
    if path.as_str().is_empty() || same_str(path.as_str(), ")") {
        None
    } else {
        Some(path)
    }
}

pub open spec fn opt_seq(o: Option<Seq<char>>) -> Seq<Seq<char>> {
    match o {
        Some(x) => seq![x],
        None => seq![],
    }
}

/// Module paths of `go.work` `use` directives, single-line and inside a
/// `use ( … )` block; `//` comments are dropped.
pub open spec fn go_work_scan(ls: Seq<Seq<char>>, in_block: bool) -> Seq<Seq<char>>
    decreases ls.len(),
{
    if ls.len() == 0 {
        seq![]
    } else {
        let line = trim(before(ls[0], "//"@));
        let rest = ls.drop_first();
        if line.len() == 0 {
            go_work_scan(rest, in_block)
        } else if in_block {
            if line == ")"@ {
                go_work_scan(rest, false)
            } else {
                opt_seq(clean_go_use_spec(line)) + go_work_scan(rest, true)
            }
        } else if starts_with(line, "use"@) {
            let r = trim(line.skip(3));
            if r == "("@ {
                go_work_scan(rest, true)
            } else {
                opt_seq(clean_go_use_spec(r)) + go_work_scan(rest, false)
            }
        } else {
            go_work_scan(rest, false)
        }
    }
}

pub fn parse_go_work(text: &str) -> (r: Vec<String>)
    ensures
        r.deep_view() == go_work_scan(lines(text@), false),
{
    let ls = lines_exec(&chars_of(text));
    let ghost lv = ls@.map_values(|l: Vec<char>| l@);
    let mut out: Vec<String> = Vec::new();
    let mut in_block = false;
    let mut i: usize = 0;
    assert(lv.skip(0) =~= lv);
    assert(out.deep_view() + go_work_scan(lv.skip(0), false) =~= go_work_scan(lv, false));
    while i < ls.len()
        invariant
            i <= ls.len(),
            lv == ls@.map_values(|l: Vec<char>| l@),
            lv == lines(text@),
            out.deep_view() + go_work_scan(lv.skip(i as int), in_block) == go_work_scan(lv, false),
        decreases ls.len() - i,
    {
        let ghost before_out = out.deep_view();
        let ghost rest = lv.skip(i as int);
        assert(rest.drop_first() =~= lv.skip(i + 1));
        assert(rest[0] == ls@[i as int]@);
        let line = trim_string(before_exec(string_of(&ls[i]).as_str(), "//").as_str());
        if line.as_str().is_empty() {
        } else if in_block {
            if same_str(line.as_str(), ")") {
                in_block = false;
            } else {
                match clean_go_use(line.as_str()) {
                    Some(p) => {
                        out.push(p);
                        assert(out.deep_view() =~= before_out + opt_seq(clean_go_use_spec(line@)));
                    },
                    None => {
                        assert(out.deep_view() =~= before_out + opt_seq(clean_go_use_spec(line@)));
                    },
                }
            }
        } else if starts_with_str(line.as_str(), "use") {
            proof {
                reveal_strlit("use");
            }
            let lv2 = chars_of(line.as_str());
            let r = trim_string(crate::text::string_of_range(&lv2, 3, lv2.len()).as_str());
            assert(lv2@.subrange(3, lv2@.len() as int) =~= line@.skip(3));
            if same_str(r.as_str(), "(") {
                in_block = true;
            } else {
                match clean_go_use(r.as_str()) {
                    Some(p) => {
                        out.push(p);
                        assert(out.deep_view() =~= before_out + opt_seq(clean_go_use_spec(r@)));
                    },
                    None => {
                        assert(out.deep_view() =~= before_out + opt_seq(clean_go_use_spec(r@)));
                    },
                }
            }
        }
        i += 1;
    }
    assert(lv.skip(i as int) =~= Seq::<Seq<char>>::empty());
    assert(out.deep_view() =~= go_work_scan(lv, false));
    out
}

/// A declared entry as a repo-relative path (see
/// [`crate::search::scope_form`]); absolute, drive-letter and escaping
/// (`..`) entries are dropped, never guessed at.
pub open spec fn normalize_entry_spec(entry: Seq<char>) -> Option<Seq<char>> {
    let s = crate::search::scope_form(entry);
    if s.len() == 0 || s[0] == '/' || (s.len() > 1 && s[1] == ':') || split_on(s, '/').contains(".."@) {
        None
    } else {
        Some(s)
    }
}

pub fn normalize_entry(entry: &str) -> (r: Option<String>)
    ensures
        match r {
            Some(s) => normalize_entry_spec(entry@) == Some(s@),
            None => normalize_entry_spec(entry@) is None,
        },
{
    let s = crate::search::scope_form_exec(entry);
    let v = chars_of(s.as_str());
    if v.len() == 0 || v[0] == '/' || (v.len() > 1 && v[1] == ':') {
        return None;
    }
    let parts = split_chars(&v, '/');
    if crate::text::has_part(&parts, &chars_of("..")) {
        return None;
    }
    Some(s)
}

/// What a declared entry stands for.
#[derive(Debug, Clone)]
pub enum EntryExpansion {
    /// Rejected by normalization.
    Dropped,
    /// A wildcard form the detector does not guess at.
    Unresolved,
    /// One exact path.
    Exact(String),
    /// `prefix/*`: the directories under `prefix`.
    Children(String),
}

pub open spec fn last_index(s: Seq<char>, c: char) -> Option<int>
    decreases s.len(),
{
    if s.len() == 0 {
        None
    } else if s.last() == c {
        Some(s.len() - 1)
    } else {
        last_index(s.drop_last(), c)
    }
}

/// An exact path is used as is; `prefix/*` lists the directories under
/// `prefix`; any other wildcard (`**`, braces, negation, `*` elsewhere) is
/// unresolved.
pub open spec fn expansion_spec(entry: Seq<char>) -> (nat, Seq<char>) {
    match normalize_entry_spec(entry) {
        None => (0, seq![]),
        Some(n) => if contains(n, "**"@) || contains(n, "{"@) || contains(n, "}"@) || contains(n, "!"@) {
            (1, seq![])
        } else {
            match last_index(n, '/') {
                Some(k) if n.skip(k + 1) == "*"@ => (3, trim_end_char(n.take(k), '/')),
                _ => if contains(n, "*"@) { (1, seq![]) } else { (2, n) },
            }
        },
    }
}

pub open spec fn expansion_view(e: EntryExpansion) -> (nat, Seq<char>) {
    match e {
        EntryExpansion::Dropped => (0, seq![]),
        EntryExpansion::Unresolved => (1, seq![]),
        EntryExpansion::Exact(p) => (2, p@),
        EntryExpansion::Children(p) => (3, p@),
    }
}

fn last_index_exec(v: &Vec<char>, c: char) -> (r: Option<usize>)
    ensures
        match r {
            Some(k) => k < v.len() && last_index(v@, c) == Some(k as int),
            None => last_index(v@, c) is None,
        },
{
    let mut i: usize = v.len();
    assert(v@.subrange(0, v@.len() as int) =~= v@);
    while i > 0
        invariant
            i <= v.len(),
            last_index(v@, c) == last_index(v@.subrange(0, i as int), c),
        decreases i,
    {
        if v[i - 1] == c {
            return Some(i - 1);
        }
        assert(v@.subrange(0, i as int).drop_last() =~= v@.subrange(0, i - 1));
        i -= 1;
    }
    None
}

pub fn expand_entry(entry: &str) -> (r: EntryExpansion)
    ensures
        expansion_view(r) == expansion_spec(entry@),
{
    let norm = match normalize_entry(entry) {
        Some(n) => n,
        None => {
            return EntryExpansion::Dropped;
        },
    };
    let n = norm.as_str();
    if contains_str(n, "**") || contains_str(n, "{") || contains_str(n, "}") || contains_str(n, "!") {
        return EntryExpansion::Unresolved;
    }
    let v = chars_of(n);
    match last_index_exec(&v, '/') {
        Some(k) => {
            let last = crate::text::string_of_range(&v, k + 1, v.len());
            assert(last@ =~= v@.skip(k + 1));
            if same_str(last.as_str(), "*") {
                let mut e: usize = k;
                assert(v@.take(k as int) =~= v@.subrange(0, k as int));
                while e > 0 && v[e - 1] == '/'
                    invariant
                        e <= k < v.len(),
                        trim_end_char(v@.take(k as int), '/') == trim_end_char(v@.subrange(0, e as int), '/'),
                    decreases e,
                {
                    assert(v@.subrange(0, e as int).drop_last() =~= v@.subrange(0, e - 1));
                    e -= 1;
                }
                assert(trim_end_char(v@.subrange(0, e as int), '/') == v@.subrange(0, e as int)) by {
                    assert(e == 0 || v@.subrange(0, e as int).last() != '/');
                }
                return EntryExpansion::Children(crate::text::string_of_range(&v, 0, e));
            }
        },
        None => {},
    }
    if contains_str(n, "*") {
        EntryExpansion::Unresolved
    } else {
        EntryExpansion::Exact(norm)
    }
}

/// The path of a child directory of `prefix`.
pub open spec fn child_path_spec(prefix: Seq<char>, name: Seq<char>) -> Seq<char> {
    if prefix.len() == 0 { name } else { prefix + "/"@ + name }
}

pub fn child_path(prefix: &str, name: &str) -> (r: String)
    ensures
        r@ == child_path_spec(prefix@, name@),
{
    if prefix.is_empty() {
        string_from(name)
    } else {
        let mut s = string_from(prefix);
        push_str(&mut s, "/");
        push_str(&mut s, name);
        s
    }
}

/// A path that can hold a subproject: no hidden segment and not under an
/// excluded vendor/build path (the caller also requires a real directory).
pub open spec fn candidate_path_spec(rel: Seq<char>) -> bool {
    !(exists|i: int| 0 <= i < split_on(rel, '/').len() && starts_with(#[trigger] split_on(rel, '/')[i], "."@))
        && !is_excluded_spec(rel + "/"@)
}

pub fn candidate_path_ok(rel: &str) -> (r: bool)
    ensures
        r == candidate_path_spec(rel@),
{
    let segs = split_chars(&chars_of(rel), '/');
    let ghost sv = segs@.map_values(|p: Vec<char>| p@);
    let mut i: usize = 0;
    while i < segs.len()
        invariant
            i <= segs.len(),
            sv == segs@.map_values(|p: Vec<char>| p@),
            sv == split_on(rel@, '/'),
            forall|k: int| 0 <= k < i ==> !starts_with(#[trigger] sv[k], "."@),
        decreases segs.len() - i,
    {
        assert(sv[i as int] == segs@[i as int]@);
        if segs[i].len() > 0 && segs[i][0] == '.' {
            assert(starts_with(sv[i as int], "."@)) by {
                reveal_strlit(".");
                assert("."@ =~= seq!['.']);
                assert(sv[i as int][0] == '.');
                assert(sv[i as int].subrange(0, 1) =~= seq!['.']);
            }
            return false;
        }
        assert(!starts_with(sv[i as int], "."@)) by {
            reveal_strlit(".");
            assert("."@ =~= seq!['.']);
            if starts_with(sv[i as int], "."@) {
                assert(sv[i as int].subrange(0, 1)[0] == sv[i as int][0]);
            }
        }
        i += 1;
    }
    let mut with_slash = string_from(rel);
    push_str(&mut with_slash, "/");
    !is_excluded(with_slash.as_str())
}

/// The entries as first seen (later duplicates dropped).
pub open spec fn dedup_first(s: Seq<Seq<char>>) -> Seq<Seq<char>>
    decreases s.len(),
{
    if s.len() == 0 {
        seq![]
    } else {
        let rest = dedup_first(s.drop_last());
        if rest.contains(s.last()) { rest } else { rest.push(s.last()) }
    }
}

/// `paths` kept where `usable`, each once, in order.
pub open spec fn usable_unique(paths: Seq<Seq<char>>, usable: Seq<bool>) -> Seq<Seq<char>> {
    dedup_first(crate::check::missing_paths(paths, usable.map_values(|b: bool| !b)))
}

fn dedup_first_exec(v: &Vec<String>) -> (r: Vec<String>)
    ensures
        r.deep_view() == dedup_first(v.deep_view()),
{
    let ghost dv = v.deep_view();
    let mut out: Vec<String> = Vec::new();
    let mut i: usize = 0;
    assert(dv.take(0) =~= seq![]);
    assert(out.deep_view() =~= seq![]);
    while i < v.len()
        invariant
            i <= v.len(),
            dv == v.deep_view(),
            out.deep_view() == dedup_first(dv.take(i as int)),
        decreases v.len() - i,
    {
        assert(dv.take(i + 1).drop_last() =~= dv.take(i as int));
        assert(dv.take(i + 1).last() == dv[i as int]);
        let ghost before = out.deep_view();
        let mut seen = false;
        let mut k: usize = 0;
        while k < out.len()
            invariant
                k <= out.len(),
                i < v.len(),
                dv == v.deep_view(),
                before == out.deep_view(),
                !seen ==> forall|x: int| 0 <= x < k ==> before[x] != dv[i as int],
                seen ==> before.contains(dv[i as int]),
            decreases out.len() - k,
        {
            if same_str(out[k].as_str(), v[i].as_str()) {
                assert(before[k as int] == dv[i as int]);
                seen = true;
            }
            k += 1;
        }
        if !seen {
            out.push(v[i].clone());
            assert(out.deep_view() =~= before.push(dv[i as int]));
        }
        i += 1;
    }
    assert(dv.take(i as int) =~= dv);
    out
}

/// The declared workspace entries in the order they are read: the
/// `package.json` workspaces, then `pnpm-workspace.yaml`, the Cargo
/// workspace members, `go.work`, and the `extra` entries of aicontext.toml.
pub fn declared_order(js: Vec<String>, pnpm: Vec<String>, cargo: Vec<String>, go: Vec<String>, extra: Vec<String>) -> (r: Vec<String>)
    ensures
        r.deep_view() == js.deep_view() + pnpm.deep_view() + cargo.deep_view() + go.deep_view() + extra.deep_view(),
{
    let mut out = js;
    append_all(&mut out, &pnpm);
    append_all(&mut out, &cargo);
    append_all(&mut out, &go);
    append_all(&mut out, &extra);
    out
}

fn append_all(out: &mut Vec<String>, part: &Vec<String>)
    ensures
        final(out).deep_view() == old(out).deep_view() + part.deep_view(),
{
    let ghost before = out.deep_view();
    let mut j: usize = 0;
    while j < part.len()
        invariant
            j <= part.len(),
            out.deep_view() == before + part.deep_view().take(j as int),
        decreases part.len() - j,
    {
        let ghost b = out.deep_view();
        out.push(part[j].clone());
        assert(out.deep_view() =~= b.push(part.deep_view()[j as int]));
        assert(part.deep_view().take(j + 1) =~= part.deep_view().take(j as int).push(part.deep_view()[j as int]));
        j += 1;
    }
    assert(part.deep_view().take(j as int) =~= part.deep_view());
}

/// The declared entries, each once, in the order first seen.
pub fn dedup_entries(entries: &Vec<String>) -> (r: Vec<String>)
    ensures
        r.deep_view() == dedup_first(entries.deep_view()),
{
    dedup_first_exec(entries)
}

/// Candidate paths: the usable ones, each once, in order.
pub fn collect_candidates(paths: &Vec<String>, usable: &Vec<bool>) -> (r: Vec<String>)
    requires
        usable.len() == paths.len(),
    ensures
        r.deep_view() == usable_unique(paths.deep_view(), usable@),
{
    let mut absent: Vec<bool> = Vec::new();
    let mut i: usize = 0;
    while i < usable.len()
        invariant
            i <= usable.len(),
            absent@ == usable@.take(i as int).map_values(|b: bool| !b),
        decreases usable.len() - i,
    {
        absent.push(!usable[i]);
        assert(usable@.take(i + 1).map_values(|b: bool| !b) =~= usable@.take(i as int).map_values(|b: bool| !b).push(!usable@[i as int]));
        i += 1;
    }
    assert(usable@.take(i as int) =~= usable@);
    let kept = crate::check::missing_paths_exec(paths, &absent);
    dedup_first_exec(&kept)
}

/// The paths the first `k` declared entries stand for: an exact path
/// itself, a `prefix/*` entry the children listed for it, the others none.
pub open spec fn expanded_paths(exps: Seq<EntryExpansion>, children: Seq<Seq<Seq<char>>>, k: int) -> Seq<Seq<char>>
    decreases k,
{
    if k <= 0 {
        seq![]
    } else {
        expanded_paths(exps, children, k - 1) + match exps[k - 1] {
            EntryExpansion::Exact(p) => seq![p@],
            EntryExpansion::Children(_) => children[k - 1],
            _ => seq![],
        }
    }
}

/// The first `k` declared entries that are left unresolved, in order.
pub open spec fn unresolved_entries(declared: Seq<Seq<char>>, exps: Seq<EntryExpansion>, k: int) -> Seq<Seq<char>>
    decreases k,
{
    if k <= 0 {
        seq![]
    } else {
        unresolved_entries(declared, exps, k - 1) + if exps[k - 1] is Unresolved { seq![declared[k - 1]] } else { seq![] }
    }
}

/// The children of the first `k` containers that are usable, in order.
pub open spec fn scanned_children(children: Seq<Seq<Seq<char>>>, usable: Seq<bool>, k: int) -> Seq<Seq<char>>
    decreases k,
{
    if k <= 0 {
        seq![]
    } else {
        scanned_children(children, usable, k - 1) + if usable[k - 1] { children[k - 1] } else { seq![] }
    }
}

/// Which directories become subprojects: the usable declared paths when
/// there is one (with `true`); else the usable children of the usable
/// containers, and those containers once each (with `false`). The
/// unresolved declared entries come along either way.
pub open spec fn selection_spec(
    declared: Seq<Seq<char>>,
    exps: Seq<EntryExpansion>,
    declared_children: Seq<Seq<Seq<char>>>,
    declared_usable: Seq<bool>,
    containers: Seq<Seq<char>>,
    container_usable: Seq<bool>,
    container_children: Seq<Seq<Seq<char>>>,
    child_usable: Seq<bool>,
) -> (Seq<Seq<char>>, Seq<Seq<char>>, Seq<Seq<char>>, bool) {
    let dpaths = expanded_paths(exps, declared_children, exps.len() as int);
    let from_declared = usable_unique(dpaths, safe_flags(dpaths, declared_usable));
    let unresolved = unresolved_entries(declared, exps, exps.len() as int);
    let cflags = safe_flags(containers, container_usable);
    let kids = scanned_children(container_children, cflags, containers.len() as int);
    if from_declared.len() > 0 {
        (from_declared, unresolved, seq![], true)
    } else {
        (usable_unique(kids, safe_flags(kids, child_usable)), unresolved, usable_unique(containers, cflags), false)
    }
}

/// A path counts only where it is usable and has no hidden or excluded
/// segment.
pub open spec fn safe_flags(paths: Seq<Seq<char>>, usable: Seq<bool>) -> Seq<bool> {
    Seq::new(paths.len(), |i: int| i < usable.len() && usable[i] && candidate_path_spec(paths[i]))
}

fn safe_flags_exec(paths: &Vec<String>, usable: &Vec<bool>) -> (r: Vec<bool>)
    requires
        usable.len() == paths.len(),
    ensures
        r@ == safe_flags(paths.deep_view(), usable@),
{
    let ghost pv = paths.deep_view();
    let mut out: Vec<bool> = Vec::new();
    let mut i: usize = 0;
    while i < paths.len()
        invariant
            i <= paths.len(),
            usable.len() == paths.len(),
            pv == paths.deep_view(),
            out@ == safe_flags(pv, usable@).take(i as int),
        decreases paths.len() - i,
    {
        assert(pv[i as int] == paths[i as int]@);
        let ok = usable[i] && candidate_path_ok(paths[i].as_str());
        out.push(ok);
        assert(out@ =~= safe_flags(pv, usable@).take(i + 1));
        i += 1;
    }
    assert(safe_flags(pv, usable@).take(i as int) =~= safe_flags(pv, usable@));
    out
}

proof fn lemma_missing_paths_members(paths: Seq<Seq<char>>, present: Seq<bool>)
    ensures
        forall|k: int| 0 <= k < crate::check::missing_paths(paths, present).len() ==> exists|i: int|
            0 <= i < paths.len() && i < present.len() && !present[i] && paths[i] == #[trigger] crate::check::missing_paths(paths, present)[k],
    decreases paths.len(),
{
    if paths.len() > 0 && present.len() >= paths.len() {
        lemma_missing_paths_members(paths.drop_last(), present);
        let rest = crate::check::missing_paths(paths.drop_last(), present);
        let m = crate::check::missing_paths(paths, present);
        assert forall|k: int| 0 <= k < m.len() implies exists|i: int|
            0 <= i < paths.len() && i < present.len() && !present[i] && paths[i] == #[trigger] m[k] by {
            if k < rest.len() {
                assert(m[k] == rest[k]);
                let i = choose|i: int| 0 <= i < paths.drop_last().len() && i < present.len() && !present[i] && paths.drop_last()[i] == rest[k];
                assert(paths[i] == paths.drop_last()[i]);
            } else {
                assert(m[k] == paths.last());
                assert(paths[paths.len() - 1] == paths.last());
            }
        }
    }
}

proof fn lemma_dedup_first_members(s: Seq<Seq<char>>)
    ensures
        forall|k: int| 0 <= k < dedup_first(s).len() ==> s.contains(#[trigger] dedup_first(s)[k]),
    decreases s.len(),
{
    if s.len() > 0 {
        lemma_dedup_first_members(s.drop_last());
        let rest = dedup_first(s.drop_last());
        let d = dedup_first(s);
        assert forall|k: int| 0 <= k < d.len() implies s.contains(#[trigger] d[k]) by {
            if k < rest.len() {
                assert(d[k] == rest[k]);
                let j = choose|j: int| 0 <= j < s.drop_last().len() && s.drop_last()[j] == rest[k];
                assert(s[j] == s.drop_last()[j]);
            } else {
                assert(d[k] == s.last());
                assert(s[s.len() - 1] == s.last());
            }
        }
    }
}

/// What is kept of paths under the safety flags has no hidden or excluded
/// segment.
proof fn lemma_safe_selection(paths: Seq<Seq<char>>, usable: Seq<bool>)
    ensures
        forall|k: int| 0 <= k < usable_unique(paths, safe_flags(paths, usable)).len()
            ==> candidate_path_spec(#[trigger] usable_unique(paths, safe_flags(paths, usable))[k]),
{
    let f = safe_flags(paths, usable);
    let absent = f.map_values(|b: bool| !b);
    let m = crate::check::missing_paths(paths, absent);
    lemma_missing_paths_members(paths, absent);
    lemma_dedup_first_members(m);
    let u = usable_unique(paths, f);
    assert forall|k: int| 0 <= k < u.len() implies candidate_path_spec(#[trigger] u[k]) by {
        let j = choose|j: int| 0 <= j < m.len() && m[j] == u[k];
        let i = choose|i: int| 0 <= i < paths.len() && i < absent.len() && !absent[i] && paths[i] == #[trigger] m[j];
        assert(f[i]);
    }
}

proof fn lemma_usable_unique_nonempty(paths: Seq<Seq<char>>, usable: Seq<bool>)
    requires
        usable.len() == paths.len(),
    ensures
        usable_unique(paths, usable).len() > 0 <==> exists|i: int| 0 <= i < paths.len() && usable[i],
    decreases paths.len(),
{
    let absent = usable.map_values(|b: bool| !b);
    let kept = crate::check::missing_paths(paths, absent);
    if paths.len() > 0 {
        let n = paths.len() - 1;
        lemma_usable_unique_nonempty(paths.drop_last(), usable.drop_last());
        assert(usable.drop_last().map_values(|b: bool| !b) =~= absent.drop_last());
        lemma_missing_prefix(paths.drop_last(), absent);
        let rest = crate::check::missing_paths(paths.drop_last(), absent);
        if usable[n] {
            assert(kept == rest.push(paths[n]));
            assert(dedup_first(kept).len() > 0) by {
                let r2 = dedup_first(rest);
                assert(kept.drop_last() =~= rest);
                assert(kept.last() == paths[n]);
                assert(dedup_first(kept) == if r2.contains(paths[n]) { r2 } else { r2.push(paths[n]) });
                if r2.contains(paths[n]) {
                    assert(r2.len() > 0);
                }
            }
        } else {
            assert(kept == rest);
            if exists|i: int| 0 <= i < paths.len() && usable[i] {
                let i = choose|i: int| 0 <= i < paths.len() && usable[i];
                assert(i < n);
                assert(usable.drop_last()[i]);
            }
        }
    } else {
        assert(kept == Seq::<Seq<char>>::empty());
    }
}

/// `missing_paths` over a prefix of the paths, with the full list of
/// flags, is the one over the matching prefix of the flags.
proof fn lemma_missing_prefix(paths: Seq<Seq<char>>, absent: Seq<bool>)
    requires
        absent.len() >= paths.len(),
    ensures
        crate::check::missing_paths(paths, absent) == crate::check::missing_paths(paths, absent.take(paths.len() as int)),
    decreases paths.len(),
{
    if paths.len() > 0 {
        lemma_missing_prefix(paths.drop_last(), absent);
        lemma_missing_prefix(paths.drop_last(), absent.take(paths.len() as int));
        assert(absent.take(paths.len() as int).take(paths.len() - 1) =~= absent.take(paths.len() - 1));
    }
}

/// Chooses the directories that become subprojects from what was found on
/// disk: `declared` (each with its expansion and, for `prefix/*`, the
/// directories listed under the prefix), whether each expanded path is a
/// usable directory, the container directories, whether each is usable,
/// the directories listed under each, and whether each of those (for the
/// usable containers, in order) is usable. Returns the candidates, the
/// unresolved entries, the containers scanned and whether the declared
/// paths were used.
pub fn select_candidates(
    declared: &Vec<String>,
    expansions: &Vec<EntryExpansion>,
    declared_children: &Vec<Vec<String>>,
    declared_usable: &Vec<bool>,
    containers: &Vec<String>,
    container_usable: &Vec<bool>,
    container_children: &Vec<Vec<String>>,
    child_usable: &Vec<bool>,
) -> (r: (Vec<String>, Vec<String>, Vec<String>, bool))
    requires
        expansions.len() == declared.len(),
        declared_children.len() == declared.len(),
        declared_usable.len() == expanded_paths(expansions@, declared_children.deep_view(), declared.len() as int).len(),
        container_usable.len() == containers.len(),
        container_children.len() == containers.len(),
        child_usable.len() == scanned_children(container_children.deep_view(), safe_flags(containers.deep_view(), container_usable@),
            containers.len() as int).len(),
    ensures
        (r.0.deep_view(), r.1.deep_view(), r.2.deep_view(), r.3) == selection_spec(declared.deep_view(), expansions@,
            declared_children.deep_view(), declared_usable@, containers.deep_view(), container_usable@,
            container_children.deep_view(), child_usable@),
        r.3 <==> exists|i: int| 0 <= i < declared_usable.len() && declared_usable@[i] && candidate_path_spec(
            expanded_paths(expansions@, declared_children.deep_view(), declared.len() as int)[i]),
        forall|k: int| 0 <= k < r.0.len() ==> candidate_path_spec(#[trigger] r.0@[k]@),
{
    let ghost dc = declared_children.deep_view();
    let mut paths: Vec<String> = Vec::new();
    let mut unresolved: Vec<String> = Vec::new();
    let mut i: usize = 0;
    while i < declared.len()
        invariant
            i <= declared.len(),
            expansions.len() == declared.len(),
            declared_children.len() == declared.len(),
            dc == declared_children.deep_view(),
            paths.deep_view() == expanded_paths(expansions@, dc, i as int),
            unresolved.deep_view() == unresolved_entries(declared.deep_view(), expansions@, i as int),
        decreases declared.len() - i,
    {
        let ghost p0 = paths.deep_view();
        let ghost u0 = unresolved.deep_view();
        match &expansions[i] {
            EntryExpansion::Exact(p) => {
                paths.push(p.clone());
                assert(paths.deep_view() =~= p0 + seq![p@]);
            },
            EntryExpansion::Children(_) => {
                let kids = &declared_children[i];
                let mut j: usize = 0;
                while j < kids.len()
                    invariant
                        j <= kids.len(),
                        paths.deep_view() == p0 + kids.deep_view().take(j as int),
                    decreases kids.len() - j,
                {
                    let ghost b = paths.deep_view();
                    paths.push(kids[j].clone());
                    assert(paths.deep_view() =~= b.push(kids.deep_view()[j as int]));
                    assert(kids.deep_view().take(j + 1) =~= kids.deep_view().take(j as int).push(kids.deep_view()[j as int]));
                    j += 1;
                }
                assert(kids.deep_view().take(j as int) =~= kids.deep_view());
                assert(dc[i as int] == kids.deep_view());
            },
            EntryExpansion::Unresolved => {
                unresolved.push(declared[i].clone());
                assert(unresolved.deep_view() =~= u0 + seq![declared.deep_view()[i as int]]);
                assert(paths.deep_view() =~= p0 + seq![]);
            },
            EntryExpansion::Dropped => {
                assert(paths.deep_view() =~= p0 + seq![]);
            },
        }
        assert(unresolved.deep_view() =~= unresolved_entries(declared.deep_view(), expansions@, i + 1));
        i += 1;
    }
    let dflags = safe_flags_exec(&paths, declared_usable);
    let from_declared = collect_candidates(&paths, &dflags);
    proof {
        lemma_usable_unique_nonempty(paths.deep_view(), dflags@);
        lemma_safe_selection(paths.deep_view(), declared_usable@);
        assert forall|k: int| 0 <= k < from_declared.len() implies candidate_path_spec(#[trigger] from_declared@[k]@) by {
            assert(from_declared@[k]@ == from_declared.deep_view()[k]);
        }
        if exists|i: int| 0 <= i < dflags.len() && dflags@[i] {
            let i = choose|i: int| 0 <= i < dflags.len() && dflags@[i];
            assert(declared_usable@[i] && candidate_path_spec(paths.deep_view()[i]));
        }
        if exists|i: int| 0 <= i < declared_usable.len() && declared_usable@[i] && candidate_path_spec(paths.deep_view()[i]) {
            let i = choose|i: int| 0 <= i < declared_usable.len() && declared_usable@[i] && candidate_path_spec(paths.deep_view()[i]);
            assert(dflags@[i]);
        }
    }
    if from_declared.len() > 0 {
        return (from_declared, unresolved, Vec::new(), true);
    }
    let cflags = safe_flags_exec(containers, container_usable);
    let ghost cc = container_children.deep_view();
    let mut found: Vec<String> = Vec::new();
    let mut k: usize = 0;
    while k < containers.len()
        invariant
            k <= containers.len(),
            cflags.len() == containers.len(),
            container_children.len() == containers.len(),
            cc == container_children.deep_view(),
            found.deep_view() == scanned_children(cc, cflags@, k as int),
        decreases containers.len() - k,
    {
        let ghost f0 = found.deep_view();
        if cflags[k] {
            let kids = &container_children[k];
            let mut j: usize = 0;
            while j < kids.len()
                invariant
                    j <= kids.len(),
                    found.deep_view() == f0 + kids.deep_view().take(j as int),
                decreases kids.len() - j,
            {
                let ghost b = found.deep_view();
                found.push(kids[j].clone());
                assert(found.deep_view() =~= b.push(kids.deep_view()[j as int]));
                assert(kids.deep_view().take(j + 1) =~= kids.deep_view().take(j as int).push(kids.deep_view()[j as int]));
                j += 1;
            }
            assert(kids.deep_view().take(j as int) =~= kids.deep_view());
            assert(cc[k as int] == kids.deep_view());
        } else {
            assert(found.deep_view() =~= f0 + seq![]);
        }
        k += 1;
    }
    let kflags = safe_flags_exec(&found, child_usable);
    let candidates = collect_candidates(&found, &kflags);
    let scanned = collect_candidates(containers, &cflags);
    proof {
        lemma_safe_selection(found.deep_view(), child_usable@);
        assert forall|k: int| 0 <= k < candidates.len() implies candidate_path_spec(#[trigger] candidates@[k]@) by {
            assert(candidates@[k]@ == candidates.deep_view()[k]);
        }
    }
    (candidates, unresolved, scanned, false)
}

pub const DEFAULT_CONTAINERS: [&'static str; 5] = ["apps", "services", "packages", "libs", "modules"];

/// The container directories to scan: the configured ones, else the
/// defaults.
pub fn container_list(configured: &Vec<String>) -> (r: Vec<String>)
    ensures
        r.deep_view() == if configured.len() == 0 {
            seq!["apps"@, "services"@, "packages"@, "libs"@, "modules"@]
        } else {
            configured.deep_view()
        },
{
    if configured.len() == 0 {
        let r = vec![string_from(DEFAULT_CONTAINERS[0]), string_from(DEFAULT_CONTAINERS[1]), string_from(DEFAULT_CONTAINERS[2]),
            string_from(DEFAULT_CONTAINERS[3]), string_from(DEFAULT_CONTAINERS[4])];
        assert(r.deep_view() =~= seq!["apps"@, "services"@, "packages"@, "libs"@, "modules"@]);
        r
    } else {
        crate::text::clone_strings(configured)
    }
}

// ---------------------------------------------------------------------------
// One subproject
// ---------------------------------------------------------------------------

/// The package manager of a subproject: by the manifest that qualified it,
/// and for a JS package by its own lockfile (bun, npm, pnpm, yarn; npm by
/// default).
pub open spec fn manager_spec(manifest: Seq<char>, bun_lock: bool, bun_lockb: bool, npm_lock: bool, pnpm_lock: bool, yarn_lock: bool) -> Option<Seq<char>> {
    if manifest == "package.json"@ {
        Some(if bun_lock || bun_lockb { "bun"@ } else if npm_lock { "npm"@ } else if pnpm_lock { "pnpm"@ } else if yarn_lock { "yarn"@ } else { "npm"@ })
    } else if manifest == "Cargo.toml"@ {
        Some("cargo"@)
    } else if manifest == "pyproject.toml"@ {
        Some("python"@)
    } else if manifest == "go.mod"@ {
        Some("go"@)
    } else {
        None
    }
}

pub fn subproject_manager(manifest: &str, bun_lock: bool, bun_lockb: bool, npm_lock: bool, pnpm_lock: bool, yarn_lock: bool) -> (r: Option<String>)
    ensures
        match r {
            Some(m) => manager_spec(manifest@, bun_lock, bun_lockb, npm_lock, pnpm_lock, yarn_lock) == Some(m@),
            None => manager_spec(manifest@, bun_lock, bun_lockb, npm_lock, pnpm_lock, yarn_lock) is None,
        },
{
    if same_str(manifest, "package.json") {
        Some(string_from(if bun_lock || bun_lockb { "bun" } else if npm_lock { "npm" } else if pnpm_lock { "pnpm" } else if yarn_lock { "yarn" } else { "npm" }))
    } else if same_str(manifest, "Cargo.toml") {
        Some(string_from("cargo"))
    } else if same_str(manifest, "pyproject.toml") {
        Some(string_from("python"))
    } else if same_str(manifest, "go.mod") {
        Some(string_from("go"))
    } else {
        None
    }
}

/// The last `/`-separated segment of a path.
pub open spec fn last_segment(rel: Seq<char>) -> Seq<char> {
    split_on(rel, '/').last()
}

pub fn dir_name(rel: &str) -> (r: String)
    ensures
        r@ == last_segment(rel@),
{
    proof {
        crate::text::lemma_split_nonempty(rel@, '/');
    }
    let parts = split_chars(&chars_of(rel), '/');
    let n = parts.len();
    assert(parts@.map_values(|p: Vec<char>| p@)[n - 1] == parts@[n - 1]@);
    string_of(&parts[n - 1])
}

pub open spec fn loc_sum(locs: Seq<u64>) -> nat
    decreases locs.len(),
{
    if locs.len() == 0 { 0 } else { loc_sum(locs.drop_last()) + locs.last() as nat }
}

proof fn lemma_loc_sum_prefix(locs: Seq<u64>, k: int)
    requires
        0 <= k <= locs.len(),
    ensures
        loc_sum(locs.take(k)) <= loc_sum(locs),
    decreases locs.len() - k,
{
    if k < locs.len() {
        lemma_loc_sum_prefix(locs, k + 1);
        assert(locs.take(k + 1).drop_last() =~= locs.take(k));
    } else {
        assert(locs.take(k) =~= locs);
    }
}

/// The measured files under a directory prefix (`""` for the whole
/// repository): indices of source files Git lists inside it.
pub open spec fn measured(git_files: Seq<Seq<char>>, prefix: Seq<char>, k: int) -> bool {
    starts_with(git_files[k], prefix) && !is_excluded_spec(git_files[k]) && language_spec(git_files[k]) is Some
}

pub open spec fn measured_count(git_files: Seq<Seq<char>>, prefix: Seq<char>, n: int) -> nat
    decreases n,
{
    if n <= 0 { 0 } else { measured_count(git_files, prefix, n - 1) + if measured(git_files, prefix, n - 1) { 1nat } else { 0nat } }
}

pub open spec fn measured_loc(git_files: Seq<Seq<char>>, locs: Seq<u64>, prefix: Seq<char>, n: int) -> nat
    decreases n,
{
    if n <= 0 { 0 } else { measured_loc(git_files, locs, prefix, n - 1) + if measured(git_files, prefix, n - 1) { locs[n - 1] as nat } else { 0nat } }
}

pub open spec fn measured_langs(git_files: Seq<Seq<char>>, prefix: Seq<char>, n: int) -> Seq<Seq<char>>
    decreases n,
{
    if n <= 0 {
        seq![]
    } else {
        let rest = measured_langs(git_files, prefix, n - 1);
        if measured(git_files, prefix, n - 1) { rest.push(language_spec(git_files[n - 1])->0) } else { rest }
    }
}

proof fn lemma_measured_bounds(git_files: Seq<Seq<char>>, locs: Seq<u64>, prefix: Seq<char>, n: int)
    requires
        0 <= n <= git_files.len(),
        locs.len() == git_files.len(),
    ensures
        measured_count(git_files, prefix, n) <= n,
        measured_loc(git_files, locs, prefix, n) <= loc_sum(locs.take(n)),
    decreases n,
{
    if n > 0 {
        lemma_measured_bounds(git_files, locs, prefix, n - 1);
        assert(locs.take(n).drop_last() =~= locs.take(n - 1));
    }
}

/// Source files, lines and distinct languages of the files Git lists under
/// `prefix` (`locs[i]`: lines of the i-th listed file).
pub fn measure(git_files: &Vec<String>, locs: &Vec<u64>, prefix: &str) -> (r: (usize, u64, Vec<String>))
    requires
        locs.len() == git_files.len(),
        loc_sum(locs@) <= u64::MAX,
    ensures
        r.0 == measured_count(git_files.deep_view(), prefix@, git_files.len() as int),
        r.1 == measured_loc(git_files.deep_view(), locs@, prefix@, git_files.len() as int),
        r.2.deep_view() == measured_langs(git_files.deep_view(), prefix@, git_files.len() as int),
{
    let ghost tv = git_files.deep_view();
    let mut files: usize = 0;
    let mut loc: u64 = 0;
    let mut langs: Vec<String> = Vec::new();
    let mut i: usize = 0;
    while i < git_files.len()
        invariant
            i <= git_files.len(),
            locs.len() == git_files.len(),
            loc_sum(locs@) <= u64::MAX,
            tv == git_files.deep_view(),
            files == measured_count(tv, prefix@, i as int),
            loc == measured_loc(tv, locs@, prefix@, i as int),
            langs.deep_view() == measured_langs(tv, prefix@, i as int),
        decreases git_files.len() - i,
    {
        proof {
            lemma_measured_bounds(tv, locs@, prefix@, i + 1);
            lemma_loc_sum_prefix(locs@, i + 1);
        }
        let f = git_files[i].as_str();
        if starts_with_str(f, prefix) && !is_excluded(f) {
            match language_of(f) {
                Some(lang) => {
                    files = files + 1;
                    loc = loc + locs[i];
                    let ghost before = langs.deep_view();
                    langs.push(string_from(lang));
                    assert(langs.deep_view() =~= before.push(language_spec(tv[i as int])->0));
                },
                None => {},
            }
        }
        i += 1;
    }
    (files, loc, langs)
}

/// Complexity of a subproject over its own listed files; workspaces are
/// pinned to 0 (the subproject is one unit).
pub fn subproject_complexity(rel: &str, git_files: &Vec<String>, locs: &Vec<u64>) -> (r: ComplexityInfo)
    requires
        locs.len() == git_files.len(),
        loc_sum(locs@) <= u64::MAX,
    ensures
        ({
            let prefix = rel@ + "/"@;
            let n = git_files.len() as int;
            &&& r.source_files == measured_count(git_files.deep_view(), prefix, n)
            &&& r.loc == measured_loc(git_files.deep_view(), locs@, prefix, n)
            &&& r.workspaces == 0
            &&& r.languages == crate::check::distinct_sorted(measured_langs(git_files.deep_view(), prefix, n)).len()
            &&& r.profile@ == profile_spec(r.source_files as nat, r.loc as nat, 0)
            &&& r.reason@ == counts_reason(r.source_files as nat, r.loc as nat, 0)
        }),
{
    let mut prefix = string_from(rel);
    push_str(&mut prefix, "/");
    let (files, loc, langs) = measure(git_files, locs, prefix.as_str());
    let distinct = crate::check::distinct_sorted_exec(&langs);
    classify(files, loc, 0, distinct.len(), None)
}

/// What was found in a candidate directory.
pub struct SubprojectFacts {
    /// Which of package.json, Cargo.toml, pyproject.toml, go.mod exist
    /// there (in that precedence order).
    pub manifests: Vec<bool>,
    pub agents_md: bool,
    /// Lockfiles in the directory: bun.lock, bun.lockb, package-lock.json,
    /// pnpm-lock.yaml, yarn.lock.
    pub locks: Vec<bool>,
    /// The `name` its first manifest declares, if it declares one.
    pub manifest_name: Option<String>,
    /// Script names of its own package.json.
    pub scripts: Vec<String>,
    /// It holds `.engineering/aicontext.toml`.
    pub initialized: bool,
}

pub open spec fn manifest_names() -> Seq<Seq<char>> {
    seq!["package.json"@, "Cargo.toml"@, "pyproject.toml"@, "go.mod"@]
}

pub open spec fn first_manifest(m: Seq<bool>) -> Option<Seq<char>> {
    crate::adapters::first_existing(manifest_names(), m)
}

pub open spec fn sv(o: Option<String>) -> Option<Seq<char>> {
    match o {
        Some(s) => Some(s@),
        None => None,
    }
}

/// A directory is a subproject with a manifest (kind `manifest`) or with an
/// `AGENTS.md` marker alone (kind `agents-marker`); a surface that
/// Engineering Platform declares is one in any case (kind
/// `engineering-surface`). Its name is the one its manifest declares, else
/// the directory name; commands are its own scripts, sorted and distinct.
pub open spec fn subproject_ok(r: Subproject, rel: Seq<char>, f: SubprojectFacts, surface: bool) -> bool {
    let m = first_manifest(f.manifests@);
    &&& r.path@ == rel
    &&& sv(r.manifest) == m
    &&& r.kind@ == if surface { "engineering-surface"@ } else if m is Some { "manifest"@ } else { "agents-marker"@ }
    &&& sv(r.manager) == match m {
        Some(x) => manager_spec(x, f.locks@[0], f.locks@[1], f.locks@[2], f.locks@[3], f.locks@[4]),
        None => None,
    }
    &&& r.name@ == match f.manifest_name { Some(n) => n@, None => last_segment(rel) }
    &&& r.commands.deep_view() == crate::check::distinct_sorted(f.scripts.deep_view())
    &&& r.agents_md == f.agents_md
    &&& r.initialized == f.initialized
}

pub fn build_subproject(rel: &str, f: &SubprojectFacts, complexity: ComplexityInfo, surface: bool) -> (r: Option<Subproject>)
    requires
        f.manifests.len() == 4,
        f.locks.len() == 5,
    ensures
        (!surface && first_manifest(f.manifests@) is None && !f.agents_md) <==> r is None,
        match r {
            Some(s) => subproject_ok(s, rel@, *f, surface) && s.complexity == complexity,
            None => true,
        },
{
    let ghost names = manifest_names();
    let mut manifest: Option<&'static str> = None;
    let mut i: usize = 0;
    let table: [&'static str; 4] = ["package.json", "Cargo.toml", "pyproject.toml", "go.mod"];
    assert(names.skip(0) =~= names);
    assert(f.manifests@.skip(0) =~= f.manifests@);
    while i < 4
        invariant
            i <= 4,
            f.manifests.len() == 4,
            names == manifest_names(),
            forall|k: int| 0 <= k < 4 ==> (#[trigger] table@[k])@ == names[k],
            manifest is None ==> first_manifest(f.manifests@) == crate::adapters::first_existing(names.skip(i as int), f.manifests@.skip(i as int)),
            manifest matches Some(m) ==> first_manifest(f.manifests@) == Some(m@),
        decreases 4 - i,
    {
        if manifest.is_none() {
            assert(names.skip(i as int).drop_first() =~= names.skip(i + 1));
            assert(f.manifests@.skip(i as int).drop_first() =~= f.manifests@.skip(i + 1));
            assert(names.skip(i as int)[0] == names[i as int]);
            if f.manifests[i] {
                manifest = Some(table[i]);
            }
        }
        i += 1;
    }
    proof {
        reveal_strlit("package.json");
    }
    let (kind, manager) = match manifest {
        Some(m) => ("manifest", subproject_manager(m, f.locks[0], f.locks[1], f.locks[2], f.locks[3], f.locks[4])),
        None => {
            if f.agents_md || surface {
                ("agents-marker", None)
            } else {
                return None;
            }
        },
    };
    let kind = if surface { "engineering-surface" } else { kind };
    let name = match &f.manifest_name {
        Some(n) => n.clone(),
        None => dir_name(rel),
    };
    Some(Subproject {
        path: string_from(rel),
        name,
        kind: string_from(kind),
        manifest: match manifest {
            Some(m) => Some(string_from(m)),
            None => None,
        },
        manager,
        commands: crate::check::distinct_sorted_exec(&f.scripts),
        agents_md: f.agents_md,
        initialized: f.initialized,
        complexity,
    })
}

// ---------------------------------------------------------------------------
// The subproject list
// ---------------------------------------------------------------------------

pub open spec fn sub_paths(s: Seq<Subproject>) -> Seq<Seq<char>> {
    s.map_values(|x: Subproject| x.path@)
}

/// Subprojects in path order, one per path (the first of equal paths).
pub open spec fn ordered_subprojects(built: Seq<Subproject>) -> Seq<Subproject> {
    let sorted = crate::engineering::permute(built, crate::order::stable_order(sub_paths(built)));
    dedup_adjacent_paths(sorted)
}

pub open spec fn dedup_adjacent_paths(s: Seq<Subproject>) -> Seq<Subproject>
    decreases s.len(),
{
    if s.len() == 0 {
        seq![]
    } else {
        let rest = dedup_adjacent_paths(s.drop_last());
        if s.len() >= 2 && s[s.len() - 2].path@ == s.last().path@ { rest } else { rest.push(s.last()) }
    }
}

/// Where the candidate directories came from.
#[derive(Debug, Clone, Copy)]
pub enum ListSource {
    /// The surfaces Engineering Platform declares.
    Engineering,
    /// The declared workspaces.
    Declared,
    /// The container scan.
    Scanned,
}

/// How the list was resolved: `engineering` from Engineering Platform's
/// surfaces; `declared` when declared workspaces gave a usable directory;
/// else `containers` when the container scan qualified one, else `none`.
pub open spec fn mode_spec(from: ListSource, n: nat) -> Seq<char> {
    match from {
        ListSource::Engineering => "engineering"@,
        ListSource::Declared => "declared"@,
        ListSource::Scanned => if n == 0 { "none"@ } else { "containers"@ },
    }
}

pub open spec fn complexity_view(c: ComplexityInfo) -> (Seq<char>, usize, u64, usize, usize, Seq<char>) {
    (c.profile@, c.source_files, c.loc, c.workspaces, c.languages, c.reason@)
}

pub type SubView = (Seq<char>, Seq<char>, Seq<char>, Option<Seq<char>>, Option<Seq<char>>, Seq<Seq<char>>, bool, bool,
    (Seq<char>, usize, u64, usize, usize, Seq<char>));

/// Everything a subproject records, as plain values.
pub open spec fn sub_view(s: Subproject) -> SubView {
    (s.path@, s.name@, s.kind@, sv(s.manifest), sv(s.manager), s.commands.deep_view(), s.agents_md, s.initialized, complexity_view(s.complexity))
}

fn clone_opt(o: &Option<String>) -> (r: Option<String>)
    ensures
        sv(r) == sv(*o),
{
    match o {
        Some(x) => Some(x.clone()),
        None => None,
    }
}

fn clone_subproject(s: &Subproject) -> (r: Subproject)
    ensures
        sub_view(r) == sub_view(*s),
{
    Subproject {
        path: s.path.clone(),
        name: s.name.clone(),
        kind: s.kind.clone(),
        manifest: clone_opt(&s.manifest),
        manager: clone_opt(&s.manager),
        commands: crate::text::clone_strings(&s.commands),
        agents_md: s.agents_md,
        initialized: s.initialized,
        complexity: ComplexityInfo {
            profile: s.complexity.profile.clone(),
            source_files: s.complexity.source_files,
            loc: s.complexity.loc,
            workspaces: s.complexity.workspaces,
            languages: s.complexity.languages,
            reason: s.complexity.reason.clone(),
        },
    }
}

/// The final subproject list and its provenance: subprojects ordered by
/// path and distinct; the declared entries sorted; unresolved entries
/// sorted and distinct; the scanned containers (sorted) only in
/// `containers` mode.
pub fn finish_subprojects(from: ListSource, built: Vec<Subproject>, declared: Vec<String>, unresolved: Vec<String>, scanned: Vec<String>)
    -> (r: (Vec<Subproject>, SubprojectsSource))
    ensures
        r.0@.map_values(|x: Subproject| sub_view(x)) == ordered_subprojects(built@).map_values(|x: Subproject| sub_view(x)),
        r.1.mode@ == mode_spec(from, r.0.len() as nat),
        r.1.declared.deep_view() == crate::order::sorted_strings(declared.deep_view()),
        r.1.unresolved.deep_view() == crate::check::distinct_sorted(unresolved.deep_view()),
        r.1.containers.deep_view() == if mode_spec(from, r.0.len() as nat) == "containers"@ {
            crate::order::sorted_strings(scanned.deep_view())
        } else {
            seq![]
        },
{
    let mut keys: Vec<Vec<char>> = Vec::new();
    let mut i: usize = 0;
    while i < built.len()
        invariant
            i <= built.len(),
            keys@.map_values(|v: Vec<char>| v@) == sub_paths(built@.take(i as int)),
        decreases built.len() - i,
    {
        let ghost before = keys@.map_values(|v: Vec<char>| v@);
        keys.push(chars_of(built[i].path.as_str()));
        assert(keys@.map_values(|v: Vec<char>| v@) =~= before.push(built@[i as int].path@));
        assert(sub_paths(built@.take(i + 1)) =~= sub_paths(built@.take(i as int)).push(built@[i as int].path@));
        i += 1;
    }
    assert(built@.take(i as int) =~= built@);
    let order = crate::order::stable_order_exec(&keys);
    let ghost ov = order@.map_values(|x: usize| x as int);
    let ghost sorted = crate::engineering::permute(built@, ov);
    // reorder, then drop neighbours with the same path
    let mut out: Vec<Subproject> = Vec::new();
    let mut k: usize = 0;
    assert(sorted.take(0) =~= seq![]);
    while k < order.len()
        invariant
            k <= order.len(),
            order@.len() == built@.len(),
            forall|q: int| 0 <= q < order@.len() ==> order@[q] < built@.len(),
            ov == order@.map_values(|x: usize| x as int),
            sorted == crate::engineering::permute(built@, ov),
            out@.map_values(|x: Subproject| sub_view(x)) == dedup_adjacent_paths(sorted.take(k as int)).map_values(|x: Subproject| sub_view(x)),
            k > 0 ==> out.len() > 0 && out@.last().path@ == sorted[k - 1].path@,
        decreases order.len() - k,
    {
        let ghost cur = sorted.take(k + 1);
        assert(cur.drop_last() =~= sorted.take(k as int));
        assert(cur.last() == built@[order@[k as int] as int]);
        let item = &built[order[k]];
        let dup = k > 0 && same_str(out[out.len() - 1].path.as_str(), item.path.as_str());
        if k > 0 {
            assert(cur[cur.len() - 2] == sorted[k - 1]);
        }
        if !dup {
            let ghost before = out@.map_values(|x: Subproject| sub_view(x));
            out.push(clone_subproject(item));
            assert(out@.map_values(|x: Subproject| sub_view(x)) =~= before.push(sub_view(*item)));
            assert(dedup_adjacent_paths(cur).map_values(|x: Subproject| sub_view(x))
                =~= dedup_adjacent_paths(sorted.take(k as int)).map_values(|x: Subproject| sub_view(x)).push(sub_view(*item)));
        } else {
            assert(dedup_adjacent_paths(cur) =~= dedup_adjacent_paths(sorted.take(k as int)));
        }
        k += 1;
    }
    assert(sorted.take(k as int) =~= sorted);
    let scanning = match from {
        ListSource::Scanned => true,
        _ => false,
    };
    let mode = match from {
        ListSource::Engineering => "engineering",
        ListSource::Declared => "declared",
        ListSource::Scanned => if out.len() == 0 { "none" } else { "containers" },
    };
    let containers = if scanning && out.len() > 0 { crate::order::sort_strings(scanned) } else { Vec::new() };
    proof {
        reveal_strlit("containers");
        reveal_strlit("declared");
        reveal_strlit("engineering");
        reveal_strlit("none");
        assert("declared"@[0] != "containers"@[0]);
        assert("engineering"@[0] != "containers"@[0]);
        assert("none"@[0] != "containers"@[0]);
    }
    assert(containers.deep_view() =~= if mode_spec(from, out.len() as nat) == "containers"@ {
        crate::order::sorted_strings(scanned.deep_view())
    } else {
        seq![]
    });
    let unresolved_sorted = crate::check::distinct_sorted_exec(&unresolved);
    (out, SubprojectsSource {
        mode: string_from(mode),
        declared: crate::order::sort_strings(declared),
        unresolved: unresolved_sorted,
        containers,
    })
}

// ---------------------------------------------------------------------------
// Packages
// ---------------------------------------------------------------------------

/// Workspace members of a Cargo manifest: `[workspace] members` minus
/// `exclude` when it parses (`parsed`: whether it has a `[workspace]` table,
/// its members, its excludes); when it does not parse, a `[workspace]`
/// marker in its text stands for one placeholder member.
pub open spec fn cargo_workspaces_spec(parsed: Option<(bool, Seq<Seq<char>>, Seq<Seq<char>>)>, has_marker: bool) -> Seq<Seq<char>> {
    match parsed {
        Some((has_ws, members, exclude)) => if has_ws {
            crate::check::absent_from(members, exclude)
        } else {
            seq![]
        },
        None => if has_marker { seq!["[workspace]"@] } else { seq![] },
    }
}

pub fn cargo_workspaces(parsed: &Option<(bool, Vec<String>, Vec<String>)>, has_marker: bool) -> (r: Vec<String>)
    ensures
        r.deep_view() == cargo_workspaces_spec(match parsed {
            Some(p) => Some((p.0, p.1.deep_view(), p.2.deep_view())),
            None => None,
        }, has_marker),
{
    match parsed {
        Some((has_ws, members, exclude)) => {
            if *has_ws {
                crate::check::absent_from_exec(members, exclude)
            } else {
                Vec::new()
            }
        },
        None => {
            if has_marker {
                let v = vec![string_from("[workspace]")];
                assert(v.deep_view() =~= seq!["[workspace]"@]);
                v
            } else {
                Vec::new()
            }
        },
    }
}

pub open spec fn package_view(p: PackageInfo) -> (Seq<char>, Seq<char>, Seq<Seq<char>>, Seq<Seq<char>>) {
    (p.manager@, p.manifest@, p.workspaces.deep_view(), p.scripts.deep_view())
}

pub type PackageView = (Seq<char>, Seq<char>, Seq<Seq<char>>, Seq<Seq<char>>);

/// The package managers found: one entry per lockfile that exists (bun
/// `bun.lockb`, bun `bun.lock`, npm, pnpm, yarn, cargo), each with the
/// workspaces of its ecosystem and the root scripts; without any lockfile,
/// the first manifest among package.json (npm), Cargo.toml, go.mod and
/// pyproject.toml.
pub open spec fn packages_spec(locks: Seq<bool>, package_json: bool, cargo_toml: bool, go_mod: bool, pyproject: bool,
    js_ws: Seq<Seq<char>>, cargo_ws: Seq<Seq<char>>, scripts: Seq<Seq<char>>) -> Seq<PackageView> {
    let all = seq![
        ("bun"@, "bun.lockb"@, js_ws, scripts),
        ("bun"@, "bun.lock"@, js_ws, scripts),
        ("npm"@, "package-lock.json"@, js_ws, scripts),
        ("pnpm"@, "pnpm-lock.yaml"@, js_ws, scripts),
        ("yarn"@, "yarn.lock"@, js_ws, scripts),
        ("cargo"@, "Cargo.lock"@, cargo_ws, scripts),
    ];
    let chosen = lock_entries(all, locks);
    if chosen.len() > 0 {
        chosen
    } else if package_json {
        seq![("npm"@, "package.json"@, js_ws, scripts)]
    } else if cargo_toml {
        seq![("cargo"@, "Cargo.toml"@, cargo_ws, seq![])]
    } else if go_mod {
        seq![("go"@, "go.mod"@, seq![], seq![])]
    } else if pyproject {
        seq![("python"@, "pyproject.toml"@, seq![], seq![])]
    } else {
        seq![]
    }
}

pub open spec fn lock_entries(all: Seq<PackageView>, locks: Seq<bool>) -> Seq<PackageView>
    decreases all.len(),
{
    if all.len() == 0 || locks.len() < all.len() {
        seq![]
    } else {
        let rest = lock_entries(all.drop_last(), locks);
        if locks[all.len() - 1] { rest.push(all.last()) } else { rest }
    }
}

fn package(manager: &str, manifest: &str, workspaces: &Vec<String>, scripts: &Vec<String>) -> (r: PackageInfo)
    ensures
        package_view(r) == (manager@, manifest@, workspaces.deep_view(), scripts.deep_view()),
{
    PackageInfo {
        manager: string_from(manager),
        manifest: string_from(manifest),
        workspaces: crate::text::clone_strings(workspaces),
        scripts: crate::text::clone_strings(scripts),
    }
}

/// The package managers found (see [`packages_spec`]); `locks[i]` tells
/// whether the i-th lockfile exists (bun.lockb, bun.lock,
/// package-lock.json, pnpm-lock.yaml, yarn.lock, Cargo.lock).
pub fn package_infos(locks: &Vec<bool>, package_json: bool, cargo_toml: bool, go_mod: bool, pyproject: bool,
    js_ws: &Vec<String>, cargo_ws: &Vec<String>, scripts: &Vec<String>) -> (r: Vec<PackageInfo>)
    requires
        locks.len() == 6,
    ensures
        r@.map_values(|p: PackageInfo| package_view(p)) == packages_spec(locks@, package_json, cargo_toml, go_mod, pyproject,
            js_ws.deep_view(), cargo_ws.deep_view(), scripts.deep_view()),
{
    let ghost all = seq![
        ("bun"@, "bun.lockb"@, js_ws.deep_view(), scripts.deep_view()),
        ("bun"@, "bun.lock"@, js_ws.deep_view(), scripts.deep_view()),
        ("npm"@, "package-lock.json"@, js_ws.deep_view(), scripts.deep_view()),
        ("pnpm"@, "pnpm-lock.yaml"@, js_ws.deep_view(), scripts.deep_view()),
        ("yarn"@, "yarn.lock"@, js_ws.deep_view(), scripts.deep_view()),
        ("cargo"@, "Cargo.lock"@, cargo_ws.deep_view(), scripts.deep_view()),
    ];
    let managers: [&'static str; 6] = ["bun", "bun", "npm", "pnpm", "yarn", "cargo"];
    let lockfiles: [&'static str; 6] = ["bun.lockb", "bun.lock", "package-lock.json", "pnpm-lock.yaml", "yarn.lock", "Cargo.lock"];
    let mut out: Vec<PackageInfo> = Vec::new();
    let mut i: usize = 0;
    assert(all.take(0) =~= seq![]);
    while i < 6
        invariant
            i <= 6,
            locks.len() == 6,
            all.len() == 6,
            forall|k: int| 0 <= k < 6 ==> (#[trigger] all[k]).0 == managers@[k]@ && all[k].1 == lockfiles@[k]@
                && all[k].2 == (if k == 5 { cargo_ws.deep_view() } else { js_ws.deep_view() }) && all[k].3 == scripts.deep_view(),
            out@.map_values(|p: PackageInfo| package_view(p)) == lock_entries(all.take(i as int), locks@),
        decreases 6 - i,
    {
        assert(all.take(i + 1).drop_last() =~= all.take(i as int));
        assert(all.take(i + 1).last() == all[i as int]);
        if locks[i] {
            let ghost before = out@.map_values(|p: PackageInfo| package_view(p));
            let ws = if i == 5 { cargo_ws } else { js_ws };
            out.push(package(managers[i], lockfiles[i], ws, scripts));
            assert(out@.map_values(|p: PackageInfo| package_view(p)) =~= before.push(all[i as int]));
        }
        i += 1;
    }
    assert(all.take(6) =~= all);
    if out.len() > 0 {
        return out;
    }
    let empty: Vec<String> = Vec::new();
    assert(empty.deep_view() =~= Seq::<Seq<char>>::empty());
    let r = if package_json {
        vec![package("npm", "package.json", js_ws, scripts)]
    } else if cargo_toml {
        vec![package("cargo", "Cargo.toml", cargo_ws, &empty)]
    } else if go_mod {
        vec![package("go", "go.mod", &empty, &empty)]
    } else if pyproject {
        vec![package("python", "pyproject.toml", &empty, &empty)]
    } else {
        Vec::new()
    };
    assert(r@.map_values(|p: PackageInfo| package_view(p)) =~= packages_spec(locks@, package_json, cargo_toml, go_mod, pyproject,
        js_ws.deep_view(), cargo_ws.deep_view(), scripts.deep_view()));
    r
}

// ---------------------------------------------------------------------------
// The scan report
// ---------------------------------------------------------------------------

pub type StatView = (Seq<char>, usize, u64);

pub open spec fn stat_view(s: LanguageStat) -> StatView {
    (s.language@, s.files, s.loc)
}

pub open spec fn find_lang(stats: Seq<StatView>, l: Seq<char>) -> Option<int>
    decreases stats.len(),
{
    if stats.len() == 0 {
        None
    } else if stats.last().0 == l {
        Some(stats.len() - 1)
    } else {
        find_lang(stats.drop_last(), l)
    }
}

/// Files and lines per language over the measured files (`files[i]` with
/// `locs[i]` lines), languages in order of first appearance.
pub open spec fn lang_stats(files: Seq<Seq<char>>, locs: Seq<u64>, n: int) -> Seq<StatView>
    decreases n,
{
    if n <= 0 {
        seq![]
    } else {
        let rest = lang_stats(files, locs, n - 1);
        if measured(files, seq![], n - 1) {
            let l = language_spec(files[n - 1])->0;
            match find_lang(rest, l) {
                Some(j) => rest.update(j, (l, (rest[j].1 + 1) as usize, (rest[j].2 + locs[n - 1]) as u64)),
                None => rest.push((l, 1usize, locs[n - 1])),
            }
        } else {
            rest
        }
    }
}

/// The key that orders stats by file count, descending.
pub open spec fn desc_key(s: StatView) -> crate::order::Triple {
    (seq![], (u64::MAX - s.1) as u64, seq![])
}

/// Language stats, most files first (equal counts keep their order).
pub open spec fn languages_spec(files: Seq<Seq<char>>, locs: Seq<u64>) -> Seq<StatView> {
    let stats = lang_stats(files, locs, files.len() as int);
    crate::engineering::permute(stats, crate::order::triple_order(stats.map_values(|s: StatView| desc_key(s))))
}

fn find_lang_exec(stats: &Vec<LanguageStat>, l: &str) -> (r: Option<usize>)
    ensures
        match r {
            Some(j) => j < stats.len() && find_lang(stats@.map_values(|s: LanguageStat| stat_view(s)), l@) == Some(j as int),
            None => find_lang(stats@.map_values(|s: LanguageStat| stat_view(s)), l@) is None,
        },
{
    let ghost sv2 = stats@.map_values(|s: LanguageStat| stat_view(s));
    let mut i: usize = stats.len();
    assert(sv2.take(sv2.len() as int) =~= sv2);
    while i > 0
        invariant
            i <= stats.len(),
            sv2 == stats@.map_values(|s: LanguageStat| stat_view(s)),
            find_lang(sv2, l@) == find_lang(sv2.take(i as int), l@),
        decreases i,
    {
        assert(sv2.take(i as int).last() == stat_view(stats@[i - 1]));
        if same_str(stats[i - 1].language.as_str(), l) {
            return Some(i - 1);
        }
        assert(sv2.take(i as int).drop_last() =~= sv2.take(i - 1));
        i -= 1;
    }
    None
}

proof fn lemma_lang_stats_bounds(files: Seq<Seq<char>>, locs: Seq<u64>, n: int)
    requires
        0 <= n <= files.len(),
        files.len() <= usize::MAX,
        locs.len() == files.len(),
        loc_sum(locs) <= u64::MAX,
    ensures
        forall|j: int| 0 <= j < lang_stats(files, locs, n).len() ==> (#[trigger] lang_stats(files, locs, n)[j]).1 <= n
            && lang_stats(files, locs, n)[j].2 <= loc_sum(locs.take(n)),
    decreases n,
{
    if n > 0 {
        lemma_lang_stats_bounds(files, locs, n - 1);
        lemma_loc_sum_prefix(locs, n);
        assert(locs.take(n).drop_last() =~= locs.take(n - 1));
        let rest = lang_stats(files, locs, n - 1);
        if measured(files, seq![], n - 1) {
            let l = language_spec(files[n - 1])->0;
            match find_lang(rest, l) {
                Some(j) => {
                    lemma_find_lang_in(rest, l);
                    assert(rest[j].1 + 1 <= n);
                    assert(rest[j].2 + locs[n - 1] <= loc_sum(locs.take(n)));
                },
                None => {},
            }
        }
    }
}

proof fn lemma_find_lang_in(stats: Seq<StatView>, l: Seq<char>)
    ensures
        find_lang(stats, l) matches Some(j) ==> 0 <= j < stats.len(),
    decreases stats.len(),
{
    if stats.len() > 0 {
        lemma_find_lang_in(stats.drop_last(), l);
    }
}

/// How many of the first `n` files are measured files of language `l`.
pub open spec fn files_of_language(files: Seq<Seq<char>>, l: Seq<char>, n: int) -> nat
    decreases n,
{
    if n <= 0 {
        0
    } else {
        files_of_language(files, l, n - 1) + if measured(files, seq![], n - 1) && language_spec(files[n - 1]) == Some(l) { 1nat } else { 0nat }
    }
}

/// The lines of the measured files of language `l` among the first `n`.
pub open spec fn lines_of_language(files: Seq<Seq<char>>, locs: Seq<u64>, l: Seq<char>, n: int) -> nat
    decreases n,
{
    if n <= 0 {
        0
    } else {
        lines_of_language(files, locs, l, n - 1) + if measured(files, seq![], n - 1) && language_spec(files[n - 1]) == Some(l) {
            locs[n - 1] as nat
        } else {
            0nat
        }
    }
}

proof fn lemma_find_lang_facts(stats: Seq<StatView>, l: Seq<char>)
    ensures
        find_lang(stats, l) matches Some(j) ==> 0 <= j < stats.len() && stats[j].0 == l,
        find_lang(stats, l) is None ==> forall|k: int| 0 <= k < stats.len() ==> (#[trigger] stats[k]).0 != l,
    decreases stats.len(),
{
    if stats.len() > 0 {
        lemma_find_lang_facts(stats.drop_last(), l);
        if stats.last().0 != l && find_lang(stats, l) is None {
            assert forall|k: int| 0 <= k < stats.len() implies (#[trigger] stats[k]).0 != l by {
                if k < stats.len() - 1 {
                    assert(stats[k] == stats.drop_last()[k]);
                }
            }
        }
    }
}

proof fn lemma_lines_of_language_bound(files: Seq<Seq<char>>, locs: Seq<u64>, l: Seq<char>, n: int)
    requires
        0 <= n <= files.len(),
        locs.len() == files.len(),
    ensures
        lines_of_language(files, locs, l, n) <= loc_sum(locs.take(n)),
        files_of_language(files, l, n) <= n,
        files_of_language(files, l, n) == 0 ==> lines_of_language(files, locs, l, n) == 0,
    decreases n,
{
    if n > 0 {
        lemma_lines_of_language_bound(files, locs, l, n - 1);
        assert(locs.take(n).drop_last() =~= locs.take(n - 1));
        assert(locs.take(n).last() == locs[n - 1]);
    }
}

/// Each language's entry counts exactly the measured files of that language
/// and sums exactly their lines; each language has one entry, and every
/// language with a measured file has one.
proof fn lemma_lang_stats_sums(files: Seq<Seq<char>>, locs: Seq<u64>, n: int)
    requires
        0 <= n <= files.len(),
        files.len() <= usize::MAX,
        locs.len() == files.len(),
        loc_sum(locs) <= u64::MAX,
    ensures
        forall|j: int| 0 <= j < lang_stats(files, locs, n).len() ==> (#[trigger] lang_stats(files, locs, n)[j]).1
            == files_of_language(files, lang_stats(files, locs, n)[j].0, n)
            && lang_stats(files, locs, n)[j].2 == lines_of_language(files, locs, lang_stats(files, locs, n)[j].0, n),
        forall|j: int, k: int| 0 <= j < k < lang_stats(files, locs, n).len() ==> (#[trigger] lang_stats(files, locs, n)[j]).0
            != (#[trigger] lang_stats(files, locs, n)[k]).0,
        forall|l: Seq<char>| #[trigger] files_of_language(files, l, n) > 0 ==> exists|j: int|
            0 <= j < lang_stats(files, locs, n).len() && (#[trigger] lang_stats(files, locs, n)[j]).0 == l,
    decreases n,
{
    if n > 0 {
        lemma_lang_stats_sums(files, locs, n - 1);
        lemma_loc_sum_prefix(locs, n);
        let rest = lang_stats(files, locs, n - 1);
        let cur = lang_stats(files, locs, n);
        assert forall|l: Seq<char>| true implies lines_of_language(files, locs, l, n) <= loc_sum(locs.take(n))
            && files_of_language(files, l, n) <= n by {
            lemma_lines_of_language_bound(files, locs, l, n);
        }
        if measured(files, seq![], n - 1) {
            let l = language_spec(files[n - 1])->0;
            lemma_find_lang_facts(rest, l);
            match find_lang(rest, l) {
                Some(j) => {
                    lemma_lines_of_language_bound(files, locs, l, n);
                    assert(cur == rest.update(j, (l, (rest[j].1 + 1) as usize, (rest[j].2 + locs[n - 1]) as u64)));
                    assert forall|q: int| 0 <= q < cur.len() implies (#[trigger] cur[q]).1 == files_of_language(files, cur[q].0, n)
                        && cur[q].2 == lines_of_language(files, locs, cur[q].0, n) by {
                        if q != j {
                            assert(cur[q] == rest[q]);
                            assert(rest[q].0 != rest[j].0 || q == j);
                        }
                    }
                    assert forall|p: int, q: int| 0 <= p < q < cur.len() implies (#[trigger] cur[p]).0 != (#[trigger] cur[q]).0 by {
                        assert(rest[p].0 != rest[q].0);
                    }
                    assert forall|m: Seq<char>| #[trigger] files_of_language(files, m, n) > 0 implies exists|q: int|
                        0 <= q < cur.len() && (#[trigger] cur[q]).0 == m by {
                        if m == l {
                            assert(cur[j].0 == m);
                        } else {
                            assert(files_of_language(files, m, n - 1) > 0);
                            let q = choose|q: int| 0 <= q < rest.len() && (#[trigger] rest[q]).0 == m;
                            assert(cur[q].0 == m);
                        }
                    }
                },
                None => {
                    lemma_lines_of_language_bound(files, locs, l, n - 1);
                    assert(files_of_language(files, l, n - 1) == 0) by {
                        if files_of_language(files, l, n - 1) > 0 {
                            let q = choose|q: int| 0 <= q < rest.len() && (#[trigger] rest[q]).0 == l;
                        }
                    }
                    assert(cur == rest.push((l, 1usize, locs[n - 1])));
                    assert forall|q: int| 0 <= q < cur.len() implies (#[trigger] cur[q]).1 == files_of_language(files, cur[q].0, n)
                        && cur[q].2 == lines_of_language(files, locs, cur[q].0, n) by {
                        if q < rest.len() {
                            assert(cur[q] == rest[q]);
                        }
                    }
                    assert forall|p: int, q: int| 0 <= p < q < cur.len() implies (#[trigger] cur[p]).0 != (#[trigger] cur[q]).0 by {
                        if q < rest.len() {
                            assert(rest[p].0 != rest[q].0);
                        } else {
                            assert(cur[p] == rest[p]);
                        }
                    }
                    assert forall|m: Seq<char>| #[trigger] files_of_language(files, m, n) > 0 implies exists|q: int|
                        0 <= q < cur.len() && (#[trigger] cur[q]).0 == m by {
                        if m == l {
                            assert(cur[rest.len() as int].0 == m);
                        } else {
                            assert(files_of_language(files, m, n - 1) > 0);
                            let q = choose|q: int| 0 <= q < rest.len() && (#[trigger] rest[q]).0 == m;
                            assert(cur[q].0 == m);
                        }
                    }
                },
            }
        } else {
            assert(cur == rest);
            assert forall|m: Seq<char>| #[trigger] files_of_language(files, m, n) > 0 implies exists|q: int|
                0 <= q < cur.len() && (#[trigger] cur[q]).0 == m by {
                assert(files_of_language(files, m, n - 1) > 0);
            }
        }
    }
}

/// Language statistics count what they say: each entry's `files` is the
/// number of measured files of its language and its `loc` the sum of their
/// lines; no language appears twice, every language with a measured file
/// appears, and languages with more files come first.
pub proof fn lemma_languages_count_files_and_lines(files: Seq<Seq<char>>, locs: Seq<u64>)
    requires
        files.len() <= usize::MAX,
        locs.len() == files.len(),
        loc_sum(locs) <= u64::MAX,
    ensures
        forall|j: int| 0 <= j < languages_spec(files, locs).len() ==> (#[trigger] languages_spec(files, locs)[j]).1
            == files_of_language(files, languages_spec(files, locs)[j].0, files.len() as int)
            && languages_spec(files, locs)[j].2 == lines_of_language(files, locs, languages_spec(files, locs)[j].0, files.len() as int),
        forall|j: int, k: int| 0 <= j < k < languages_spec(files, locs).len() ==> (#[trigger] languages_spec(files, locs)[j]).0
            != (#[trigger] languages_spec(files, locs)[k]).0,
        forall|l: Seq<char>| #[trigger] files_of_language(files, l, files.len() as int) > 0 ==> exists|j: int|
            0 <= j < languages_spec(files, locs).len() && (#[trigger] languages_spec(files, locs)[j]).0 == l,
        forall|j: int, k: int| 0 <= j < k < languages_spec(files, locs).len() ==> (#[trigger] languages_spec(files, locs)[j]).1
            >= (#[trigger] languages_spec(files, locs)[k]).1,
{
    let n = files.len() as int;
    lemma_lang_stats_sums(files, locs, n);
    let stats = lang_stats(files, locs, n);
    let keys = stats.map_values(|s: StatView| desc_key(s));
    let order = crate::order::triple_order(keys);
    crate::order::lemma_triple_order_indices(keys);
    crate::order::lemma_triple_order_permutation(keys);
    let out = languages_spec(files, locs);
    assert(out == crate::engineering::permute(stats, order));
    assert forall|j: int| 0 <= j < out.len() implies #[trigger] out[j] == stats[order[j]] by {}
    assert forall|j: int, k: int| 0 <= j < k < out.len() implies (#[trigger] out[j]).0 != (#[trigger] out[k]).0 by {
        assert(out[j] == stats[order[j]] && out[k] == stats[order[k]]);
        assert(order[j] != order[k]);
        if order[j] < order[k] {
            assert(stats[order[j]].0 != stats[order[k]].0);
        } else {
            assert(stats[order[k]].0 != stats[order[j]].0);
        }
    }
    assert forall|j: int, k: int| 0 <= j < k < out.len() implies (#[trigger] out[j]).1 >= (#[trigger] out[k]).1 by {
        assert(out[j] == stats[order[j]] && out[k] == stats[order[k]]);
        assert(crate::order::triple_le(keys[order[j]], keys[order[k]]));
        assert(keys[order[j]] == desc_key(stats[order[j]]));
        assert(keys[order[k]] == desc_key(stats[order[k]]));
    }
    assert forall|l: Seq<char>| #[trigger] files_of_language(files, l, n) > 0 implies exists|j: int|
        0 <= j < out.len() && (#[trigger] out[j]).0 == l by {
        let q = choose|q: int| 0 <= q < stats.len() && (#[trigger] stats[q]).0 == l;
        assert(order.contains(q));
        let j = choose|j: int| 0 <= j < order.len() && order[j] == q;
        assert(out[j] == stats[q]);
    }
}

/// Per-language stats of the measured files (see [`languages_spec`]).
pub fn language_stats(files: &Vec<String>, locs: &Vec<u64>) -> (r: Vec<LanguageStat>)
    requires
        locs.len() == files.len(),
        loc_sum(locs@) <= u64::MAX,
    ensures
        r@.map_values(|s: LanguageStat| stat_view(s)) == languages_spec(files.deep_view(), locs@),
{
    let ghost fv = files.deep_view();
    let mut stats: Vec<LanguageStat> = Vec::new();
    let mut i: usize = 0;
    while i < files.len()
        invariant
            i <= files.len(),
            locs.len() == files.len(),
            loc_sum(locs@) <= u64::MAX,
            fv == files.deep_view(),
            stats@.map_values(|s: LanguageStat| stat_view(s)) == lang_stats(fv, locs@, i as int),
        decreases files.len() - i,
    {
        proof {
            assert(fv.len() == files.len());
            lemma_lang_stats_bounds(fv, locs@, i as int);
            lemma_loc_sum_prefix(locs@, i + 1);
            assert(locs@.take(i + 1).drop_last() =~= locs@.take(i as int));
        }
        let f = files[i].as_str();
        proof {
            reveal_strlit("");
        }
        if !is_excluded(f) {
            match language_of(f) {
                Some(lang) => {
                    assert(fv[i as int].subrange(0, 0) =~= Seq::<char>::empty());
                    assert(starts_with(fv[i as int], seq![]));
                    let ghost before = stats@.map_values(|s: LanguageStat| stat_view(s));
                    match find_lang_exec(&stats, lang) {
                        Some(j) => {
                            assert(before[j as int] == stat_view(stats@[j as int]));
                            assert(lang_stats(fv, locs@, i as int)[j as int].1 <= i);
                            assert(lang_stats(fv, locs@, i as int)[j as int].2 <= loc_sum(locs@.take(i as int)));
                            assert(loc_sum(locs@.take(i + 1)) == loc_sum(locs@.take(i as int)) + locs@[i as int]);
                            let files_n = stats[j].files + 1;
                            let loc_n = stats[j].loc + locs[i];
                            stats[j] = LanguageStat { language: string_from(lang), files: files_n, loc: loc_n };
                            assert(stats@.map_values(|s: LanguageStat| stat_view(s)) =~= before.update(j as int, (lang@, files_n, loc_n)));
                        },
                        None => {
                            stats.push(LanguageStat { language: string_from(lang), files: 1, loc: locs[i] });
                            assert(stats@.map_values(|s: LanguageStat| stat_view(s)) =~= before.push((lang@, 1usize, locs@[i as int])));
                        },
                    }
                },
                None => {},
            }
        }
        i += 1;
    }
    let ghost st = stats@.map_values(|s: LanguageStat| stat_view(s));
    let mut keys: Vec<(Vec<char>, u64, Vec<char>)> = Vec::new();
    let mut k: usize = 0;
    while k < stats.len()
        invariant
            k <= stats.len(),
            st == stats@.map_values(|s: LanguageStat| stat_view(s)),
            keys@.map_values(|x: (Vec<char>, u64, Vec<char>)| crate::order::triple_view(x)) == st.take(k as int).map_values(|s: StatView| desc_key(s)),
        decreases stats.len() - k,
    {
        let ghost before = keys@.map_values(|x: (Vec<char>, u64, Vec<char>)| crate::order::triple_view(x));
        let e: Vec<char> = Vec::new();
        let e2: Vec<char> = Vec::new();
        keys.push((e, u64::MAX - stats[k].files as u64, e2));
        assert(keys@.map_values(|x: (Vec<char>, u64, Vec<char>)| crate::order::triple_view(x)) =~= before.push(desc_key(st[k as int])));
        assert(st.take(k + 1).map_values(|s: StatView| desc_key(s)) =~= st.take(k as int).map_values(|s: StatView| desc_key(s)).push(desc_key(st[k as int])));
        k += 1;
    }
    assert(st.take(k as int) =~= st);
    let order = crate::order::triple_order_exec(&keys);
    let ghost ov = order@.map_values(|x: usize| x as int);
    let mut out: Vec<LanguageStat> = Vec::new();
    let mut q: usize = 0;
    while q < order.len()
        invariant
            q <= order.len(),
            forall|x: int| 0 <= x < order@.len() ==> order@[x] < stats@.len(),
            ov == order@.map_values(|x: usize| x as int),
            st == stats@.map_values(|s: LanguageStat| stat_view(s)),
            out@.map_values(|s: LanguageStat| stat_view(s)) == crate::engineering::permute(st, ov.take(q as int)),
        decreases order.len() - q,
    {
        let ghost before = out@.map_values(|s: LanguageStat| stat_view(s));
        let s2 = &stats[order[q]];
        out.push(LanguageStat { language: s2.language.clone(), files: s2.files, loc: s2.loc });
        assert(out@.map_values(|s: LanguageStat| stat_view(s)) =~= before.push(st[order@[q as int] as int]));
        assert(crate::engineering::permute(st, ov.take(q + 1)) =~= crate::engineering::permute(st, ov.take(q as int)).push(st[ov[q as int]]));
        q += 1;
    }
    assert(ov.take(q as int) =~= ov);
    out
}

pub open spec fn all_scripts(ps: Seq<PackageInfo>) -> Seq<Seq<char>>
    decreases ps.len(),
{
    if ps.len() == 0 { seq![] } else { all_scripts(ps.drop_last()) + ps.last().scripts.deep_view() }
}

pub open spec fn workspace_total(ps: Seq<PackageInfo>) -> nat
    decreases ps.len(),
{
    if ps.len() == 0 { 0 } else { workspace_total(ps.drop_last()) + ps.last().workspaces@.len() }
}

proof fn lemma_workspace_prefix(ps: Seq<PackageInfo>, k: int)
    requires
        0 <= k <= ps.len(),
    ensures
        workspace_total(ps.take(k)) <= workspace_total(ps),
    decreases ps.len() - k,
{
    if k < ps.len() {
        lemma_workspace_prefix(ps, k + 1);
        assert(ps.take(k + 1).drop_last() =~= ps.take(k));
    } else {
        assert(ps.take(k) =~= ps);
    }
}

/// What the scan found; everything the report is computed from.
pub struct ScanFacts {
    pub root: String,
    pub head: Option<String>,
    pub branch: Option<String>,
    /// The files Git lists, and the lines of each measured one.
    pub files: Vec<String>,
    pub locs: Vec<u64>,
    pub packages: Vec<PackageInfo>,
    pub tools: Vec<ToolInfo>,
    /// `repository.size` from aicontext.toml, when set.
    pub override_size: Option<String>,
    pub subprojects: Vec<Subproject>,
    pub subprojects_source: SubprojectsSource,
    pub version_candidates: Vec<VersionCandidate>,
    pub docs: Vec<String>,
    pub ci: Vec<String>,
    /// Engineering Platform detection of the repository.
    pub engineering: EngineeringDetection,
}

/// The complexity reason, with the subproject count when there are two or
/// more (the routing threshold).
pub open spec fn reason_with_subprojects(base: Seq<char>, n: nat) -> Seq<char> {
    if n >= 2 { base + "; "@ + decimal(n) + " subprojects"@ } else { base }
}

/// The scan report: languages (most files first), the distinct sorted
/// script names of every package, the complexity over all measured files
/// (with the subproject count appended from two subprojects on), and the
/// 7-character short HEAD.
pub fn collect_scan(f: ScanFacts) -> (r: ScanReport)
    requires
        f.locs.len() == f.files.len(),
        loc_sum(f.locs@) <= u64::MAX,
        workspace_total(f.packages@) <= usize::MAX,
    ensures
        r.schema@ == SCAN_SCHEMA@,
        r.git.root@ == f.root@,
        sv(r.git.head) == sv(f.head),
        sv(r.git.short_head) == match f.head { Some(h) => Some(crate::text::take_chars(h@, 7)), None => None },
        sv(r.git.branch) == sv(f.branch),
        r.git.tracked_files == f.files.len(),
        r.languages@.map_values(|s: LanguageStat| stat_view(s)) == languages_spec(f.files.deep_view(), f.locs@),
        r.packages@ == f.packages@,
        r.commands.deep_view() == crate::check::distinct_sorted(all_scripts(f.packages@)),
        r.tools@ == f.tools@,
        r.complexity.source_files == measured_count(f.files.deep_view(), seq![], f.files.len() as int),
        r.complexity.loc == measured_loc(f.files.deep_view(), f.locs@, seq![], f.files.len() as int),
        r.complexity.workspaces == workspace_total(f.packages@),
        r.complexity.languages == r.languages.len(),
        match f.override_size {
            Some(size) => r.complexity.profile@ == size@,
            None => r.complexity.profile@ == profile_spec(r.complexity.source_files as nat, r.complexity.loc as nat, r.complexity.workspaces as nat),
        },
        r.complexity.reason@ == reason_with_subprojects(match f.override_size {
            Some(_) => "repository.size override in aicontext.toml"@,
            None => counts_reason(r.complexity.source_files as nat, r.complexity.loc as nat, r.complexity.workspaces as nat),
        }, f.subprojects.len() as nat),
        r.version_candidates@ == f.version_candidates@,
        r.docs@ == f.docs@,
        r.ci@ == f.ci@,
        r.subprojects@ == f.subprojects@,
        r.subprojects_source == f.subprojects_source,
        summary_view(r.engineering) == engineering_summary_spec(f.engineering),
{
    let languages = language_stats(&f.files, &f.locs);
    proof {
        reveal_strlit("");
        assert(""@ =~= Seq::<char>::empty());
    }
    let (source_files, total_loc, _langs) = measure(&f.files, &f.locs, "");
    // commands and workspaces
    let mut scripts: Vec<String> = Vec::new();
    let mut ws: usize = 0;
    let mut i: usize = 0;
    while i < f.packages.len()
        invariant
            i <= f.packages.len(),
            workspace_total(f.packages@) <= usize::MAX,
            scripts.deep_view() == all_scripts(f.packages@.take(i as int)),
            ws == workspace_total(f.packages@.take(i as int)),
        decreases f.packages.len() - i,
    {
        assert(f.packages@.take(i + 1).drop_last() =~= f.packages@.take(i as int));
        proof {
            lemma_workspace_prefix(f.packages@, i + 1);
        }
        let p = &f.packages[i];
        let mut j: usize = 0;
        let ghost before = scripts.deep_view();
        while j < p.scripts.len()
            invariant
                j <= p.scripts.len(),
                scripts.deep_view() == before + p.scripts.deep_view().take(j as int),
            decreases p.scripts.len() - j,
        {
            let ghost b2 = scripts.deep_view();
            scripts.push(p.scripts[j].clone());
            assert(scripts.deep_view() =~= b2.push(p.scripts.deep_view()[j as int]));
            assert(p.scripts.deep_view().take(j + 1) =~= p.scripts.deep_view().take(j as int).push(p.scripts.deep_view()[j as int]));
            j += 1;
        }
        assert(p.scripts.deep_view().take(j as int) =~= p.scripts.deep_view());
        ws = ws + p.workspaces.len();
        i += 1;
    }
    assert(f.packages@.take(i as int) =~= f.packages@);
    let commands = crate::check::distinct_sorted_exec(&scripts);
    let mut complexity = classify(source_files, total_loc, ws, languages.len(), match &f.override_size {
        Some(s) => Some(s.as_str()),
        None => None,
    });
    if f.subprojects.len() >= 2 {
        let mut reason = complexity.reason.clone();
        push_str(&mut reason, "; ");
        push_decimal(&mut reason, f.subprojects.len() as u64);
        push_str(&mut reason, " subprojects");
        complexity.reason = reason;
    }
    let short_head = match &f.head {
        Some(h) => {
            let v = chars_of(h.as_str());
            let n: usize = if v.len() > 7 { 7 } else { v.len() };
            let s = crate::text::string_of_range(&v, 0, n);
            assert(s@ =~= crate::text::take_chars(h@, 7));
            Some(s)
        },
        None => None,
    };
    let tracked_files = f.files.len();
    let engineering = engineering_summary(&f.engineering);
    ScanReport {
        schema: string_from(SCAN_SCHEMA),
        git: GitInfo { root: f.root, head: f.head, short_head, branch: f.branch, tracked_files },
        languages,
        packages: f.packages,
        commands,
        tools: f.tools,
        complexity,
        version_candidates: f.version_candidates,
        docs: f.docs,
        ci: f.ci,
        subprojects: f.subprojects,
        subprojects_source: f.subprojects_source,
        engineering,
    }
}


/// Dropping each subproject whose path repeats the one before it, from a
/// list in ascending path order, leaves paths strictly ascending; the last
/// path stays.
proof fn lemma_dedup_ascending(s: Seq<Subproject>)
    requires
        forall|i: int, j: int| 0 <= i < j < s.len() ==> crate::order::lex_le(#[trigger] s[i].path@, #[trigger] s[j].path@),
    ensures
        s.len() > 0 ==> dedup_adjacent_paths(s).len() > 0 && dedup_adjacent_paths(s).last().path@ == s.last().path@,
        forall|i: int, j: int|
            0 <= i < j < dedup_adjacent_paths(s).len() ==> crate::order::lex_le(
                #[trigger] dedup_adjacent_paths(s)[i].path@,
                #[trigger] dedup_adjacent_paths(s)[j].path@,
            ) && dedup_adjacent_paths(s)[i].path@ != dedup_adjacent_paths(s)[j].path@,
    decreases s.len(),
{
    if s.len() > 0 {
        let init = s.drop_last();
        assert forall|i: int, j: int| 0 <= i < j < init.len() implies crate::order::lex_le(
            #[trigger] init[i].path@,
            #[trigger] init[j].path@,
        ) by {
            assert(init[i] == s[i] && init[j] == s[j]);
        }
        lemma_dedup_ascending(init);
        let rest = dedup_adjacent_paths(init);
        let d = dedup_adjacent_paths(s);
        if !(s.len() >= 2 && s[s.len() - 2].path@ == s.last().path@) {
            assert(d == rest.push(s.last()));
            if s.len() >= 2 {
                let prev = s[s.len() - 2].path@;
                let last = s.last().path@;
                assert(crate::order::lex_le(prev, last));
                assert forall|i: int| 0 <= i < rest.len() implies crate::order::lex_le(#[trigger] rest[i].path@, last)
                    && rest[i].path@ != last by {
                    if i < rest.len() - 1 {
                        assert(crate::order::lex_le(rest[i].path@, rest[rest.len() - 1].path@));
                    } else {
                        crate::order::lemma_lex_refl(prev);
                    }
                    crate::order::lemma_lex_trans(rest[i].path@, prev, last);
                    if rest[i].path@ == last {
                        crate::order::lemma_lex_antisym(prev, last);
                    }
                }
                assert forall|i: int, j: int| 0 <= i < j < d.len() implies crate::order::lex_le(
                    #[trigger] d[i].path@,
                    #[trigger] d[j].path@,
                ) && d[i].path@ != d[j].path@ by {
                    assert(d[i] == rest[i]);
                    if j < rest.len() {
                        assert(d[j] == rest[j]);
                    } else {
                        assert(d[j] == s.last());
                    }
                }
            } else {
                assert(rest.len() == 0);
            }
        }
    }
}

/// The detected subprojects come out in strictly ascending path order (by
/// code point, as `String` sorts), one per path, so the same tree always
/// serializes the same list.
pub proof fn lemma_subprojects_in_path_order(built: Seq<Subproject>)
    ensures
        forall|i: int, j: int|
            0 <= i < j < ordered_subprojects(built).len() ==> crate::order::lex_le(
                #[trigger] ordered_subprojects(built)[i].path@,
                #[trigger] ordered_subprojects(built)[j].path@,
            ) && ordered_subprojects(built)[i].path@ != ordered_subprojects(built)[j].path@,
{
    let keys = sub_paths(built);
    crate::order::lemma_stable_order_sorted(keys);
    let order = crate::order::stable_order(keys);
    let sorted = crate::engineering::permute(built, order);
    assert forall|i: int, j: int| 0 <= i < j < sorted.len() implies crate::order::lex_le(
        #[trigger] sorted[i].path@,
        #[trigger] sorted[j].path@,
    ) by {
        assert(sorted[i] == built[order[i]]);
        assert(sorted[j] == built[order[j]]);
        assert(keys[order[i]] == built[order[i]].path@);
        assert(keys[order[j]] == built[order[j]].path@);
    }
    lemma_dedup_ascending(sorted);
}

} // verus!
