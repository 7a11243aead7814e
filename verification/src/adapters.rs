//! Project adapters: knip, dependency-cruiser, lychee, zizmor. Findings are
//! evidence only by default; a `required` policy in consistency.yml turns
//! one into a gate. The caller runs the tools; what is decided from their
//! results is here.
use vstd::prelude::*;

use crate::order::{sort_strings, sorted_strings};
use crate::engineering::dedup_sorted;
use crate::text::{chars_of, join, join_strs, push_char, push_decimal, push_range, push_str, decimal, string_from, take_chars};

verus! {

/// Outcome of one adapter evaluation (only applicable adapters have one).
#[derive(Debug, Clone)]
pub struct AdapterOutcome {
    pub tool: &'static str,
    /// Machine state: ok | issues | missing | unconfigured | error.
    pub state: String,
    pub detail: String,
}

/// At most `max` characters of `s`, with `…` appended when cut.
pub open spec fn truncate_spec(s: Seq<char>, max: nat) -> Seq<char> {
    if s.len() > max {
        s.take(max as int).push('…')
    } else {
        s
    }
}

pub fn truncate(s: &str, max: usize) -> (r: String)
    ensures
        r@ == truncate_spec(s@, max as nat),
{
    let v = chars_of(s);
    let mut out = String::new();
    if v.len() > max {
        push_range(&mut out, &v, 0, max);
        push_char(&mut out, '…');
    } else {
        push_range(&mut out, &v, 0, v.len());
        assert(v@.subrange(0, v@.len() as int) =~= v@);
    }
    out
}

/// Config filenames dependency-cruiser discovers by default.
pub const DEP_CRUISE_CONFIGS: [&'static str; 5] = [
    ".dependency-cruiser.json",
    ".dependency-cruiser.js",
    ".dependency-cruiser.cjs",
    ".dependency-cruiser.mjs",
    "dependency-cruiser.config.js",
];

pub open spec fn depcruise_configs() -> Seq<Seq<char>> {
    seq![
        ".dependency-cruiser.json"@,
        ".dependency-cruiser.js"@,
        ".dependency-cruiser.cjs"@,
        ".dependency-cruiser.mjs"@,
        "dependency-cruiser.config.js"@,
    ]
}

/// The first config file that exists, in discovery order.
pub open spec fn first_existing(names: Seq<Seq<char>>, exists: Seq<bool>) -> Option<Seq<char>>
    decreases names.len(),
{
    if names.len() == 0 || exists.len() == 0 {
        None
    } else if exists[0] {
        Some(names[0])
    } else {
        first_existing(names.drop_first(), exists.drop_first())
    }
}

/// The dependency-cruiser config name, given which of
/// [`DEP_CRUISE_CONFIGS`] exist at the root (`exists[i]` for the i-th).
pub fn depcruiser_config_name(exists: &Vec<bool>) -> (r: Option<String>)
    requires
        exists.len() == 5,
    ensures
        match r {
            Some(n) => first_existing(depcruise_configs(), exists@) == Some(n@),
            None => first_existing(depcruise_configs(), exists@) is None,
        },
{
    let ghost names = depcruise_configs();
    let mut i: usize = 0;
    assert(names.skip(0) =~= names);
    assert(exists@.skip(0) =~= exists@);
    while i < 5
        invariant
            i <= 5,
            exists.len() == 5,
            names == depcruise_configs(),
            first_existing(names, exists@) == first_existing(names.skip(i as int), exists@.skip(i as int)),
        decreases 5 - i,
    {
        assert(names.skip(i as int).drop_first() =~= names.skip(i + 1));
        assert(exists@.skip(i as int).drop_first() =~= exists@.skip(i + 1));
        if exists[i] {
            proof {
                reveal_strlit(".dependency-cruiser.json");
            }
            assert(names.skip(i as int)[0] == names[i as int]);
            assert(names[i as int] == DEP_CRUISE_CONFIGS[i as int]@);
            return Some(string_from(DEP_CRUISE_CONFIGS[i]));
        }
        i += 1;
    }
    None
}

/// Adapter names accepted in the `adapters` table of consistency.yml.
pub const KNOWN_ADAPTERS: [&'static str; 4] = ["knip", "dependency-cruiser", "lychee", "zizmor"];

pub open spec fn known_adapter(name: Seq<char>) -> bool {
    name == "knip"@ || name == "dependency-cruiser"@ || name == "lychee"@ || name == "zizmor"@
}

pub fn is_known_adapter(name: &str) -> (r: bool)
    ensures
        r == known_adapter(name@),
{
    crate::text::same_str(name, KNOWN_ADAPTERS[0]) || crate::text::same_str(name, KNOWN_ADAPTERS[1])
        || crate::text::same_str(name, KNOWN_ADAPTERS[2]) || crate::text::same_str(name, KNOWN_ADAPTERS[3])
}

/// Lychee applies to docs-heavy repositories: a `docs/` directory or at
/// least ten markdown files.
pub fn lychee_applicable(docs_dir: bool, md_files: usize) -> (r: bool)
    ensures
        r == (docs_dir || md_files >= 10),
{
    docs_dir || md_files >= 10
}

pub open spec fn markdown_files(langs: Seq<crate::scan::LanguageStat>) -> nat
    decreases langs.len(),
{
    if langs.len() == 0 {
        0
    } else {
        markdown_files(langs.drop_last()) + if langs.last().language@ == "markdown"@ { langs.last().files as nat } else { 0 }
    }
}

/// Markdown files counted by the scan.
pub fn md_file_count(report: &crate::scan::ScanReport) -> (r: usize)
    requires
        markdown_files(report.languages@) <= usize::MAX,
    ensures
        r == markdown_files(report.languages@),
{
    let mut total: usize = 0;
    let mut i: usize = 0;
    while i < report.languages.len()
        invariant
            i <= report.languages.len(),
            markdown_files(report.languages@) <= usize::MAX,
            total == markdown_files(report.languages@.take(i as int)),
        decreases report.languages.len() - i,
    {
        assert(report.languages@.take(i + 1).drop_last() =~= report.languages@.take(i as int));
        proof {
            lemma_markdown_prefix(report.languages@, i + 1);
        }
        if crate::text::same_str(report.languages[i].language.as_str(), "markdown") {
            total = total + report.languages[i].files;
        }
        i += 1;
    }
    assert(report.languages@.take(i as int) =~= report.languages@);
    total
}

proof fn lemma_markdown_prefix(langs: Seq<crate::scan::LanguageStat>, k: int)
    requires
        0 <= k <= langs.len(),
    ensures
        markdown_files(langs.take(k)) <= markdown_files(langs),
    decreases langs.len() - k,
{
    if k < langs.len() {
        lemma_markdown_prefix(langs, k + 1);
        assert(langs.take(k + 1).drop_last() =~= langs.take(k));
    } else {
        assert(langs.take(k) =~= langs);
    }
}

/// Which adapters apply, in run order: knip and dependency-cruiser for
/// JS/TS, lychee for docs-heavy repositories, zizmor with GitHub workflows.
pub open spec fn applicable_spec(js_ts: bool, lychee: bool, workflows: bool) -> Seq<Seq<char>> {
    (if js_ts { seq!["knip"@, "dependency-cruiser"@] } else { seq![] })
        + (if lychee { seq!["lychee"@] } else { seq![] })
        + (if workflows { seq!["zizmor"@] } else { seq![] })
}

pub fn applicable_adapters(js_ts: bool, lychee: bool, workflows: bool) -> (r: Vec<&'static str>)
    ensures
        r@.map_values(|s: &'static str| s@) == applicable_spec(js_ts, lychee, workflows),
{
    let mut out: Vec<&'static str> = Vec::new();
    if js_ts {
        out.push("knip");
        out.push("dependency-cruiser");
    }
    if lychee {
        out.push("lychee");
    }
    if workflows {
        out.push("zizmor");
    }
    assert(out@.map_values(|s: &'static str| s@) =~= applicable_spec(js_ts, lychee, workflows));
    out
}

/// What running one adapter produced.
pub enum RunEvidence {
    /// The tool is not installed (`hint`: how to install it).
    Missing,
    /// dependency-cruiser without a boundaries config.
    Unconfigured,
    /// The process could not be started.
    SpawnFailed,
    /// It ran: the issue count and summary read from its JSON output, if
    /// any; whether it exited successfully; its stderr.
    Ran { parsed: Option<(u64, String)>, success: bool, stderr: String },
}

pub open spec fn install_hint(tool: Seq<char>) -> Seq<char> {
    if tool == "knip"@ {
        "npm install --save-dev knip"@
    } else if tool == "dependency-cruiser"@ {
        "npm install --save-dev dependency-cruiser"@
    } else if tool == "lychee"@ {
        "cargo install lychee"@
    } else {
        "cargo install zizmor"@
    }
}

pub open spec fn missing_detail(tool: Seq<char>) -> Seq<char> {
    if tool == "knip"@ {
        "knip absent — install: npm install --save-dev knip (project-local; evidence unavailable)"@
    } else if tool == "dependency-cruiser"@ {
        "dependency-cruiser absent — install: npm install --save-dev dependency-cruiser (project-local; evidence unavailable)"@
    } else if tool == "lychee"@ {
        "lychee absent — install: cargo install lychee (evidence unavailable)"@
    } else {
        "zizmor absent — install: cargo install zizmor (evidence unavailable)"@
    }
}

pub const UNCONFIGURED_DETAIL: &'static str = "dependency-cruiser: no boundaries config — formalize only if worth it (.dependency-cruiser.json)";

/// The outcome for one adapter run: JSON output wins over the exit code;
/// a clean exit with unreadable output is clean; anything else is an
/// error carrying the trimmed stderr (200 chars at most).
pub open spec fn classify_spec(tool: Seq<char>, e: RunEvidence) -> (Seq<char>, Seq<char>) {
    match e {
        RunEvidence::Missing => ("missing"@, missing_detail(tool)),
        RunEvidence::Unconfigured => ("unconfigured"@, UNCONFIGURED_DETAIL@),
        RunEvidence::SpawnFailed => ("missing"@, tool + " absent — install: "@ + install_hint(tool) + " (evidence unavailable)"@),
        RunEvidence::Ran { parsed, success, stderr } => match parsed {
            Some(p) => (if p.0 == 0 { "ok"@ } else { "issues"@ }, tool + ": "@ + p.1@),
            None => if success {
                ("ok"@, tool + ": ran clean (no machine-readable issues)"@)
            } else {
                ("error"@, tool + ": run failed ("@ + truncate_spec(crate::text::trim(stderr@), 200) + "); evidence unavailable — "@ + install_hint(tool))
            },
        },
    }
}

fn install_hint_exec(tool: &str) -> (r: &'static str)
    ensures
        r@ == install_hint(tool@),
{
    if crate::text::same_str(tool, "knip") {
        "npm install --save-dev knip"
    } else if crate::text::same_str(tool, "dependency-cruiser") {
        "npm install --save-dev dependency-cruiser"
    } else if crate::text::same_str(tool, "lychee") {
        "cargo install lychee"
    } else {
        "cargo install zizmor"
    }
}

fn missing_detail_exec(tool: &str) -> (r: &'static str)
    ensures
        r@ == missing_detail(tool@),
{
    if crate::text::same_str(tool, "knip") {
        "knip absent — install: npm install --save-dev knip (project-local; evidence unavailable)"
    } else if crate::text::same_str(tool, "dependency-cruiser") {
        "dependency-cruiser absent — install: npm install --save-dev dependency-cruiser (project-local; evidence unavailable)"
    } else if crate::text::same_str(tool, "lychee") {
        "lychee absent — install: cargo install lychee (evidence unavailable)"
    } else {
        "zizmor absent — install: cargo install zizmor (evidence unavailable)"
    }
}

/// Classifies one adapter run (see [`classify_spec`]).
pub fn classify(tool: &'static str, evidence: &RunEvidence) -> (r: AdapterOutcome)
    ensures
        r.tool == tool,
        (r.state@, r.detail@) == classify_spec(tool@, *evidence),
{
    match evidence {
        RunEvidence::Missing => AdapterOutcome { tool, state: string_from("missing"), detail: string_from(missing_detail_exec(tool)) },
        RunEvidence::Unconfigured => AdapterOutcome { tool, state: string_from("unconfigured"), detail: string_from(UNCONFIGURED_DETAIL) },
        RunEvidence::SpawnFailed => {
            let mut d = string_from(tool);
            push_str(&mut d, " absent — install: ");
            push_str(&mut d, install_hint_exec(tool));
            push_str(&mut d, " (evidence unavailable)");
            AdapterOutcome { tool, state: string_from("missing"), detail: d }
        },
        RunEvidence::Ran { parsed, success, stderr } => match parsed {
            Some((n, summary)) => {
                let mut d = string_from(tool);
                push_str(&mut d, ": ");
                push_str(&mut d, summary.as_str());
                AdapterOutcome { tool, state: if *n == 0 { string_from("ok") } else { string_from("issues") }, detail: d }
            },
            None => {
                if *success {
                    let mut d = string_from(tool);
                    push_str(&mut d, ": ran clean (no machine-readable issues)");
                    AdapterOutcome { tool, state: string_from("ok"), detail: d }
                } else {
                    let tail = truncate(crate::text::trim_string(stderr.as_str()).as_str(), 200);
                    let mut d = string_from(tool);
                    push_str(&mut d, ": run failed (");
                    push_str(&mut d, tail.as_str());
                    push_str(&mut d, "); evidence unavailable — ");
                    push_str(&mut d, install_hint_exec(tool));
                    AdapterOutcome { tool, state: string_from("error"), detail: d }
                }
            },
        },
    }
}

/// Every applicable adapter's outcome, in run order (`evidence[i]` belongs
/// to the i-th applicable adapter). Never fails: each outcome carries its
/// own state.
pub fn run_all(js_ts: bool, lychee: bool, workflows: bool, evidence: &Vec<RunEvidence>) -> (r: Vec<AdapterOutcome>)
    requires
        evidence.len() == applicable_spec(js_ts, lychee, workflows).len(),
    ensures
        r.len() == evidence.len(),
        forall|i: int| 0 <= i < r.len() ==> (#[trigger] r@[i]).tool@ == applicable_spec(js_ts, lychee, workflows)[i]
            && (r@[i].state@, r@[i].detail@) == classify_spec(applicable_spec(js_ts, lychee, workflows)[i], evidence@[i]),
{
    let tools = applicable_adapters(js_ts, lychee, workflows);
    let mut out: Vec<AdapterOutcome> = Vec::new();
    let mut i: usize = 0;
    while i < tools.len()
        invariant
            i <= tools.len(),
            tools@.map_values(|s: &'static str| s@) == applicable_spec(js_ts, lychee, workflows),
            evidence.len() == tools.len(),
            out.len() == i,
            forall|k: int| 0 <= k < i ==> (#[trigger] out@[k]).tool@ == applicable_spec(js_ts, lychee, workflows)[k]
                && (out@[k].state@, out@[k].detail@) == classify_spec(applicable_spec(js_ts, lychee, workflows)[k], evidence@[k]),
        decreases tools.len() - i,
    {
        assert(tools@.map_values(|s: &'static str| s@)[i as int] == tools@[i as int]@);
        out.push(classify(tools[i], &evidence[i]));
        i += 1;
    }
    out
}

// ---------------------------------------------------------------------------
// Summaries read from the adapters' JSON output
// ---------------------------------------------------------------------------

/// Joined names, sorted and deduplicated.
pub open spec fn sorted_names(names: Seq<Seq<char>>) -> Seq<char> {
    join(dedup_sorted(sorted_strings(names)), ", "@)
}

fn sorted_names_exec(names: Vec<String>) -> (r: String)
    ensures
        r@ == sorted_names(names.deep_view()),
{
    let sorted = sort_strings(names);
    let mut out: Vec<String> = Vec::new();
    let ghost sv = sorted.deep_view();
    let mut j: usize = 0;
    assert(sv.take(0) =~= seq![]);
    assert(out.deep_view() =~= seq![]);
    while j < sorted.len()
        invariant
            j <= sorted.len(),
            sv == sorted.deep_view(),
            out.deep_view() == dedup_sorted(sv.take(j as int)),
        decreases sorted.len() - j,
    {
        let ghost cur = sv.take(j + 1);
        assert(cur.drop_last() =~= sv.take(j as int));
        assert(cur.last() == sv[j as int]);
        let dup = j >= 1 && crate::text::same_str(sorted[j - 1].as_str(), sorted[j].as_str());
        if j >= 1 {
            assert(cur[cur.len() - 2] == sv[j - 1]);
        }
        if !dup {
            let ghost before = out.deep_view();
            out.push(sorted[j].clone());
            assert(out.deep_view() =~= before.push(sv[j as int]));
        }
        j += 1;
    }
    assert(sv.take(j as int) =~= sv);
    join_strs(&out, ", ")
}

/// dependency-cruiser's summary from its `violations` array (rule names of
/// each violation; `count` violations).
pub fn depcruiser_summary(count: u64, rule_names: Vec<String>) -> (r: (u64, String))
    ensures
        r.0 == count,
        r.1@ == if count == 0 {
            "no boundary violations"@
        } else {
            decimal(count as nat) + " violation(s): "@ + truncate_spec(sorted_names(rule_names.deep_view()), 200)
        },
{
    if count == 0 {
        (count, string_from("no boundary violations"))
    } else {
        let names = sorted_names_exec(rule_names);
        let mut s = String::new();
        push_decimal(&mut s, count);
        push_str(&mut s, " violation(s): ");
        push_str(&mut s, truncate(names.as_str(), 200).as_str());
        (count, s)
    }
}

/// dependency-cruiser's summary from its severity counters alone (the
/// `error`, `warn` and `info` counters its report holds), summed.
pub fn depcruiser_counter_summary(counters: &Vec<u64>) -> (r: (u64, String))
    requires
        knip_total(counters@) <= u64::MAX,
    ensures
        r.0 == knip_total(counters@),
        r.1@ == if knip_total(counters@) == 0 {
            "no boundary violations"@
        } else {
            decimal(knip_total(counters@)) + " violation(s)"@
        },
{
    let mut count: u64 = 0;
    let mut i: usize = 0;
    assert(counters@.take(0) =~= seq![]);
    while i < counters.len()
        invariant
            i <= counters.len(),
            knip_total(counters@) <= u64::MAX,
            count == knip_total(counters@.take(i as int)),
        decreases counters.len() - i,
    {
        assert(counters@.take(i + 1).drop_last() =~= counters@.take(i as int));
        proof {
            lemma_total_prefix(counters@, i as int + 1);
        }
        count = count + counters[i];
        i += 1;
    }
    assert(counters@.take(i as int) =~= counters@);
    if count == 0 {
        (count, string_from("no boundary violations"))
    } else {
        let mut s = String::new();
        push_decimal(&mut s, count);
        push_str(&mut s, " violation(s)");
        (count, s)
    }
}

/// A prefix sums to no more than the whole.
proof fn lemma_total_prefix(counts: Seq<u64>, k: int)
    requires
        0 <= k <= counts.len(),
    ensures
        knip_total(counts.take(k)) <= knip_total(counts),
    decreases counts.len() - k,
{
    if k < counts.len() {
        lemma_total_prefix(counts, k + 1);
        assert(counts.take(k + 1).drop_last() =~= counts.take(k));
    } else {
        assert(counts.take(k) =~= counts);
    }
}

/// How zizmor's summary names one finding: `ident (severity)`, with
/// `finding` and `?` standing in for what the report leaves out.
pub fn zizmor_kind(ident: Option<&str>, severity: Option<&str>) -> (r: String)
    ensures
        r@ == (match ident { Some(i) => i@, None => "finding"@ }) + " ("@ + (match severity {
            Some(s) => s@,
            None => "?"@,
        }) + ")"@,
{
    let mut out = string_from(match ident {
        Some(i) => i,
        None => "finding",
    });
    push_str(&mut out, " (");
    push_str(&mut out, match severity {
        Some(s) => s,
        None => "?",
    });
    push_str(&mut out, ")");
    out
}

/// lychee's summary: `errors` broken links, naming the first five failing
/// inputs (sorted, deduplicated).
pub fn lychee_summary(errors: u64, failing: Vec<String>) -> (r: (u64, String))
    ensures
        r.0 == errors,
        r.1@ == if errors == 0 {
            "no broken local links or anchors"@
        } else {
            decimal(errors as nat) + " broken link(s): "@ + truncate_spec(join(
                dedup_sorted(sorted_strings(failing.deep_view())).take(
                    if dedup_sorted(sorted_strings(failing.deep_view())).len() > 5 { 5 } else { dedup_sorted(sorted_strings(failing.deep_view())).len() as int }), ", "@), 200)
        },
{
    if errors == 0 {
        return (errors, string_from("no broken local links or anchors"));
    }
    let sorted = sort_strings(failing);
    let mut uniq: Vec<String> = Vec::new();
    let ghost sv = sorted.deep_view();
    let mut j: usize = 0;
    assert(sv.take(0) =~= seq![]);
    assert(uniq.deep_view() =~= seq![]);
    while j < sorted.len()
        invariant
            j <= sorted.len(),
            sv == sorted.deep_view(),
            uniq.deep_view() == dedup_sorted(sv.take(j as int)),
        decreases sorted.len() - j,
    {
        let ghost cur = sv.take(j + 1);
        assert(cur.drop_last() =~= sv.take(j as int));
        assert(cur.last() == sv[j as int]);
        let dup = j >= 1 && crate::text::same_str(sorted[j - 1].as_str(), sorted[j].as_str());
        if j >= 1 {
            assert(cur[cur.len() - 2] == sv[j - 1]);
        }
        if !dup {
            let ghost before = uniq.deep_view();
            uniq.push(sorted[j].clone());
            assert(uniq.deep_view() =~= before.push(sv[j as int]));
        }
        j += 1;
    }
    assert(sv.take(j as int) =~= sv);
    let ghost all = uniq.deep_view();
    let mut shown: Vec<String> = Vec::new();
    let mut k: usize = 0;
    while k < uniq.len() && k < 5
        invariant
            k <= uniq.len(),
            k <= 5,
            all == uniq.deep_view(),
            shown.deep_view() == all.take(k as int),
        decreases uniq.len() - k,
    {
        let ghost before = shown.deep_view();
        let item = uniq[k].clone();
        shown.push(item);
        assert(shown.deep_view() =~= before.push(all[k as int]));
        assert(all.take(k + 1) =~= all.take(k as int).push(all[k as int]));
        k += 1;
    }
    let joined = join_strs(&shown, ", ");
    let mut s = String::new();
    push_decimal(&mut s, errors);
    push_str(&mut s, " broken link(s): ");
    push_str(&mut s, truncate(joined.as_str(), 200).as_str());
    (errors, s)
}

/// zizmor's summary: `count` findings, their `ident (severity)` kinds
/// sorted and deduplicated.
pub fn zizmor_summary(count: u64, kinds: Vec<String>) -> (r: (u64, String))
    ensures
        r.0 == count,
        r.1@ == if count == 0 {
            "no workflow findings"@
        } else {
            decimal(count as nat) + " finding(s): "@ + truncate_spec(sorted_names(kinds.deep_view()), 200)
        },
{
    if count == 0 {
        (count, string_from("no workflow findings"))
    } else {
        let names = sorted_names_exec(kinds);
        let mut s = String::new();
        push_decimal(&mut s, count);
        push_str(&mut s, " finding(s): ");
        push_str(&mut s, truncate(names.as_str(), 200).as_str());
        (count, s)
    }
}

/// Knip issue types; only these keys are counted.
pub const KNIP_ISSUE_TYPES: [&'static str; 15] = [
    "files",
    "dependencies",
    "unlisted",
    "binaries",
    "unresolved",
    "exports",
    "nsExports",
    "types",
    "nsTypes",
    "enumMembers",
    "namespaceMembers",
    "duplicates",
    "cycles",
    "catalog",
    "catalogReferences",
];

pub open spec fn knip_total(counts: Seq<u64>) -> nat
    decreases counts.len(),
{
    if counts.len() == 0 { 0 } else { knip_total(counts.drop_last()) + counts.last() as nat }
}

/// `"{key} {n}"` for each issue type with a non-zero count, in table order.
pub open spec fn knip_parts(keys: Seq<Seq<char>>, counts: Seq<u64>) -> Seq<Seq<char>>
    decreases counts.len(),
{
    if counts.len() == 0 || keys.len() < counts.len() {
        seq![]
    } else {
        let rest = knip_parts(keys, counts.drop_last());
        let n = counts.last();
        if n > 0 { rest.push(keys[counts.len() - 1] + " "@ + decimal(n as nat)) } else { rest }
    }
}

pub open spec fn knip_keys() -> Seq<Seq<char>> {
    KNIP_ISSUE_TYPES@.map_values(|k: &'static str| k@)
}

proof fn lemma_knip_total_prefix(counts: Seq<u64>, k: int)
    requires
        0 <= k <= counts.len(),
    ensures
        knip_total(counts.take(k)) <= knip_total(counts),
    decreases counts.len() - k,
{
    if k < counts.len() {
        lemma_knip_total_prefix(counts, k + 1);
        assert(counts.take(k + 1).drop_last() =~= counts.take(k));
    } else {
        assert(counts.take(k) =~= counts);
    }
}

/// knip's summary: `counts[i]` issues of the i-th type of
/// [`KNIP_ISSUE_TYPES`] (array length or object size in its report).
pub fn knip_summary(counts: &Vec<u64>) -> (r: (u64, String))
    requires
        counts.len() == 15,
        knip_total(counts@) <= u64::MAX,
    ensures
        r.0 == knip_total(counts@),
        r.1@ == if knip_total(counts@) == 0 {
            "no unused files, dependencies or exports"@
        } else {
            decimal(knip_total(counts@)) + " issue(s): "@ + truncate_spec(join(knip_parts(knip_keys(), counts@), ", "@), 200)
        },
{
    let mut total: u64 = 0;
    let mut parts: Vec<String> = Vec::new();
    let mut i: usize = 0;
    assert(counts@.take(0) =~= seq![]);
    assert(parts.deep_view() =~= seq![]);
    while i < counts.len()
        invariant
            i <= counts.len(),
            counts.len() == 15,
            knip_total(counts@) <= u64::MAX,
            total == knip_total(counts@.take(i as int)),
            parts.deep_view() == knip_parts(knip_keys(), counts@.take(i as int)),
        decreases counts.len() - i,
    {
        let n = counts[i];
        assert(counts@.take(i + 1).drop_last() =~= counts@.take(i as int));
        assert(counts@.take(i + 1).last() == n);
        proof {
            lemma_knip_total_prefix(counts@, i + 1);
        }
        if n > 0 {
            total = total + n;
            let ghost before = parts.deep_view();
            let mut p = string_from(KNIP_ISSUE_TYPES[i]);
            push_str(&mut p, " ");
            push_decimal(&mut p, n);
            parts.push(p);
            assert(knip_keys()[i as int] == KNIP_ISSUE_TYPES[i as int]@);
            assert(parts.deep_view() =~= before.push(knip_keys()[i as int] + " "@ + decimal(n as nat)));
        }
        i += 1;
    }
    assert(counts@.take(i as int) =~= counts@);
    if total == 0 {
        (total, string_from("no unused files, dependencies or exports"))
    } else {
        let joined = join_strs(&parts, ", ");
        let mut s = String::new();
        push_decimal(&mut s, total);
        push_str(&mut s, " issue(s): ");
        push_str(&mut s, truncate(joined.as_str(), 200).as_str());
        (total, s)
    }
}

/// The inputs lychee checks: `docs` and `README.md` when present, else `.`.
pub fn lychee_inputs(docs_dir: bool, readme: bool) -> (r: Vec<String>)
    ensures
        r.deep_view() == if !docs_dir && !readme {
            seq!["."@]
        } else {
            (if docs_dir { seq!["docs"@] } else { seq![] }) + (if readme { seq!["README.md"@] } else { seq![] })
        },
{
    let mut inputs: Vec<String> = Vec::new();
    if docs_dir {
        inputs.push(string_from("docs"));
    }
    if readme {
        inputs.push(string_from("README.md"));
    }
    if inputs.len() == 0 {
        inputs.push(string_from("."));
    }
    assert(inputs.deep_view() =~= if !docs_dir && !readme {
        seq!["."@]
    } else {
        (if docs_dir { seq!["docs"@] } else { seq![] }) + (if readme { seq!["README.md"@] } else { seq![] })
    });
    inputs
}

} // verus!
