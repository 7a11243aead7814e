//! `aicontext doctor`: advisory diagnostics of the installation and the
//! repository contract. The caller gathers the facts; the diagnostics and
//! their wording are decided here.
use vstd::prelude::*;

use crate::check::{has_markers, has_state_markers};
use crate::config::{RepoConfig, CONSISTENCY, CONSISTENCY_SCHEMA, REPO_MANIFEST};
use crate::engineering::EngineeringDetection;
use crate::scan::ComplexityInfo;
use crate::text::{
    chars_of, contains, decimal, ends_with, eq_ignore_ascii_case, eq_ignore_ascii_case_exec, join, join_strs, lines,
    lines_exec, push_decimal, push_str, same_str, starts_with, string_from, string_of, trim, trim_string,
};
use crate::tools::{tool_state, tool_state_spec, ToolInfo, ToolState};

verus! {

pub const DOCTOR_SCHEMA: &'static str = "aicontext/doctor/v1";

#[derive(Debug, Clone, Copy, PartialEq, Eq, Structural)]
pub enum Status {
    Pass,
    Warn,
    Fail,
}

/// One diagnostic with its remediation, if any.
#[derive(Debug, Clone)]
pub struct Diagnostic {
    pub name: String,
    pub status: Status,
    pub detail: String,
    pub remediation: Option<String>,
}

pub type DiagView = (Seq<char>, Status, Seq<char>, Option<Seq<char>>);

pub open spec fn dv(d: Diagnostic) -> DiagView {
    (d.name@, d.status, d.detail@, match d.remediation { Some(r) => Some(r@), None => None })
}

fn ok(name: &str, detail: String) -> (r: Diagnostic)
    ensures
        dv(r) == (name@, Status::Pass, detail@, None::<Seq<char>>),
{
    Diagnostic { name: string_from(name), status: Status::Pass, detail, remediation: None }
}

fn warn(name: &str, detail: String, remediation: &str) -> (r: Diagnostic)
    ensures
        dv(r) == (name@, Status::Warn, detail@, Some(remediation@)),
{
    Diagnostic { name: string_from(name), status: Status::Warn, detail, remediation: Some(string_from(remediation)) }
}

fn fail(name: &str, detail: String, remediation: &str) -> (r: Diagnostic)
    ensures
        dv(r) == (name@, Status::Fail, detail@, Some(remediation@)),
{
    Diagnostic { name: string_from(name), status: Status::Fail, detail, remediation: Some(string_from(remediation)) }
}

// ---------------------------------------------------------------------------
// PATTERNS.md references
// ---------------------------------------------------------------------------

pub open spec fn refs_header(t: Seq<char>) -> bool {
    eq_ignore_ascii_case(t, "reference:"@) || eq_ignore_ascii_case(t, "references:"@)
}

/// A path-looking entry: contains `/` or `.`, and no space.
pub open spec fn path_like(c: Seq<char>) -> bool {
    (contains(c, "/"@) || contains(c, "."@)) && !contains(c, " "@)
}

/// The path-looking `- entry` lines under a `reference:`/`references:`
/// header, until the next `key:` line; comments and blank lines skipped.
pub open spec fn refs_scan(ls: Seq<Seq<char>>, in_refs: bool) -> Seq<Seq<char>>
    decreases ls.len(),
{
    if ls.len() == 0 {
        seq![]
    } else {
        let t = trim(ls[0]);
        let rest = ls.drop_first();
        if refs_header(t) {
            refs_scan(rest, true)
        } else if starts_with(t, "#"@) || t.len() == 0 {
            refs_scan(rest, in_refs)
        } else if in_refs {
            if starts_with(t, "- "@) {
                let cand = trim(t.skip(2));
                (if path_like(cand) { seq![cand] } else { seq![] }) + refs_scan(rest, true)
            } else if !starts_with(t, "-"@) && ends_with(t, ":"@) {
                refs_scan(rest, false)
            } else {
                refs_scan(rest, true)
            }
        } else {
            refs_scan(rest, false)
        }
    }
}

/// The references of `PATTERNS.md` that look like paths (the caller keeps
/// those that do not exist: the broken ones).
pub fn path_ref_candidates(text: &str) -> (r: Vec<String>)
    ensures
        r.deep_view() == refs_scan(lines(text@), false),
{
    let ls = lines_exec(&chars_of(text));
    let ghost lv = ls@.map_values(|l: Vec<char>| l@);
    let mut out: Vec<String> = Vec::new();
    let mut in_refs = false;
    let mut i: usize = 0;
    assert(lv.skip(0) =~= lv);
    assert(out.deep_view() + refs_scan(lv.skip(0), false) =~= refs_scan(lv, false));
    while i < ls.len()
        invariant
            i <= ls.len(),
            lv == ls@.map_values(|l: Vec<char>| l@),
            lv == lines(text@),
            out.deep_view() + refs_scan(lv.skip(i as int), in_refs) == refs_scan(lv, false),
        decreases ls.len() - i,
    {
        let ghost before = out.deep_view();
        let ghost rest = lv.skip(i as int);
        assert(rest.drop_first() =~= lv.skip(i + 1));
        assert(rest[0] == ls@[i as int]@);
        let t = trim_string(string_of(&ls[i]).as_str());
        let tv = chars_of(t.as_str());
        if eq_ignore_ascii_case_exec(t.as_str(), "reference:") || eq_ignore_ascii_case_exec(t.as_str(), "references:") {
            in_refs = true;
        } else if crate::text::starts_with_str(t.as_str(), "#") || tv.len() == 0 {
        } else if in_refs {
            if crate::text::starts_with_str(t.as_str(), "- ") {
                proof {
                    reveal_strlit("- ");
                }
                let mut rest_s = String::new();
                crate::text::push_range(&mut rest_s, &tv, 2, tv.len());
                assert(tv@.subrange(2, tv.len() as int) =~= t@.skip(2));
                let cand = trim_string(rest_s.as_str());
                let looks = (crate::text::contains_str(cand.as_str(), "/") || crate::text::contains_str(cand.as_str(), "."))
                    && !crate::text::contains_str(cand.as_str(), " ");
                if looks {
                    out.push(cand);
                    assert(out.deep_view() =~= before + seq![trim(t@.skip(2))]);
                } else {
                    assert(out.deep_view() =~= before + Seq::<Seq<char>>::empty());
                }
            } else if !crate::text::starts_with_str(t.as_str(), "-") && crate::text::ends_with_str(t.as_str(), ":") {
                in_refs = false;
            }
        }
        i += 1;
    }
    assert(lv.skip(i as int) =~= Seq::<Seq<char>>::empty());
    assert(out.deep_view() =~= refs_scan(lv, false));
    out
}

// ---------------------------------------------------------------------------
// tgrep status
// ---------------------------------------------------------------------------

/// The text after `prefix` on the last line (trimmed) that starts with it.
pub open spec fn last_field(ls: Seq<Seq<char>>, prefix: Seq<char>) -> Option<Seq<char>>
    decreases ls.len(),
{
    if ls.len() == 0 {
        None
    } else if starts_with(trim(ls.last()), prefix) {
        Some(trim(trim(ls.last()).skip(prefix.len() as int)))
    } else {
        last_field(ls.drop_last(), prefix)
    }
}

/// One-line summary of a `tgrep status` report: both `Files:` and
/// `Server:` lines are required (anything else, such as "No index found",
/// is no report).
pub open spec fn tgrep_summary_spec(text: Seq<char>) -> Option<Seq<char>> {
    match (last_field(lines(text), "Files:"@), last_field(lines(text), "Server:"@)) {
        (Some(f), Some(s)) => Some(f + " files indexed, server: "@ + s),
        _ => None,
    }
}

fn field_after(t: &str, prefix: &str) -> (r: Option<String>)
    ensures
        match r {
            Some(v) => starts_with(t@, prefix@) && v@ == trim(t@.skip(prefix@.len() as int)),
            None => !starts_with(t@, prefix@),
        },
{
    if crate::text::starts_with_str(t, prefix) {
        let tv = chars_of(t);
        let n = chars_of(prefix).len();
        let mut rest = String::new();
        crate::text::push_range(&mut rest, &tv, n, tv.len());
        assert(tv@.subrange(n as int, tv.len() as int) =~= t@.skip(prefix@.len() as int));
        Some(trim_string(rest.as_str()))
    } else {
        None
    }
}

/// Summary of a successful `tgrep status` run (see [`tgrep_summary_spec`]).
pub fn tgrep_status_summary(text: &str) -> (r: Option<String>)
    ensures
        match r {
            Some(s) => tgrep_summary_spec(text@) == Some(s@),
            None => tgrep_summary_spec(text@) is None,
        },
{
    let ls = lines_exec(&chars_of(text));
    let ghost lv = ls@.map_values(|l: Vec<char>| l@);
    let mut files: Option<String> = None;
    let mut server: Option<String> = None;
    let mut i: usize = 0;
    assert(lv.take(0) =~= seq![]);
    while i < ls.len()
        invariant
            i <= ls.len(),
            lv == ls@.map_values(|l: Vec<char>| l@),
            lv == lines(text@),
            crate::tools::opt_view(files) == last_field(lv.take(i as int), "Files:"@),
            crate::tools::opt_view(server) == last_field(lv.take(i as int), "Server:"@),
        decreases ls.len() - i,
    {
        assert(lv.take(i + 1).drop_last() =~= lv.take(i as int));
        assert(lv.take(i + 1).last() == ls@[i as int]@);
        let line = trim_string(string_of(&ls[i]).as_str());
        match field_after(line.as_str(), "Files:") {
            Some(v) => {
                files = Some(v);
                assert(!starts_with(line@, "Server:"@)) by {
                    reveal_strlit("Files:");
                    reveal_strlit("Server:");
                    assert(line@.subrange(0, 6)[0] == line@[0]);
                    if starts_with(line@, "Server:"@) {
                        assert(line@.subrange(0, 7)[0] == line@[0]);
                    }
                }
            },
            None => {
                match field_after(line.as_str(), "Server:") {
                    Some(v) => {
                        server = Some(v);
                    },
                    None => {},
                }
            },
        }
        i += 1;
    }
    assert(lv.take(i as int) =~= lv);
    match (files, server) {
        (Some(f), Some(s)) => {
            let mut out = f;
            push_str(&mut out, " files indexed, server: ");
            push_str(&mut out, s.as_str());
            Some(out)
        },
        _ => None,
    }
}

// ---------------------------------------------------------------------------
// The diagnostics
// ---------------------------------------------------------------------------

/// The agent skill as installed on disk: its body and the managing
/// version from its ownership manifest (`None` when unmanaged).
#[derive(Debug, Clone)]
pub struct InstalledSkill {
    pub body: String,
    pub version: Option<String>,
}

/// The `.tgrep/` index as found.
#[derive(Debug, Clone)]
pub enum TgrepIndex {
    /// No `.tgrep/` directory.
    Absent,
    /// `.tgrep/` exists but tgrep is not installed.
    NotInstalled,
    /// tgrep is installed: the summary of `tgrep status`, if it reported one.
    Status(Option<String>),
}

/// What `doctor` found.
pub struct DoctorFacts {
    /// This binary's version.
    pub version: String,
    pub git: ToolInfo,
    pub config: Result<RepoConfig, String>,
    /// The `PROJECT_STATE.md` text, when readable.
    pub state_text: Option<String>,
    pub patterns_exists: bool,
    /// References of `PATTERNS.md` that point nowhere.
    pub broken_refs: Vec<String>,
    /// The consistency manifest: `None` when unreadable, else its `schema`
    /// string (if it parses as YAML and has one).
    pub consistency: Option<Option<String>>,
    pub sg: ToolInfo,
    /// The skill installed for pi.
    pub skill: Option<InstalledSkill>,
    /// The skill installed for opencode.
    pub opencode_skill: Option<InstalledSkill>,
    /// The skill text this binary installs.
    pub skill_body: String,
    /// `None` without an `rtk` binary; else its health problem, if any.
    pub rtk: Option<Option<String>>,
    pub tgrep: TgrepIndex,
    /// The scan's complexity, when the scan succeeded.
    pub complexity: Option<ComplexityInfo>,
    /// Whether codebase-memory-mcp and codegraph are installed.
    pub cbm_available: bool,
    pub codegraph_available: bool,
    pub engineering: EngineeringDetection,
}

pub open spec fn sv(o: Option<String>) -> Option<Seq<char>> {
    match o {
        Some(s) => Some(s@),
        None => None,
    }
}

pub open spec fn cfg_of(f: DoctorFacts) -> Option<RepoConfig> {
    match f.config {
        Ok(c) => Some(c),
        Err(_) => None,
    }
}

pub open spec fn config_diags(c: RepoConfig, f: DoctorFacts) -> Seq<DiagView> {
    let state = match f.state_text {
        Some(t) => if has_markers(t@) {
            ("state markers"@, Status::Pass, c.state.project_state@, None)
        } else {
            ("state markers"@, Status::Fail, "PROJECT_STATE.md lacks generated/curated markers"@, Some("aicontext init"@))
        },
        None => ("state markers"@, Status::Fail, "missing "@ + c.state.project_state@, Some("aicontext init"@)),
    };
    let patterns = if f.patterns_exists {
        if f.broken_refs.len() == 0 {
            ("patterns refs"@, Status::Pass, c.state.patterns@, None)
        } else {
            ("patterns refs"@, Status::Warn, decimal(f.broken_refs.len() as nat) + " broken reference(s): "@ + join(f.broken_refs.deep_view(), ", "@),
                Some("fix paths in PATTERNS.md or re-run adoption"@))
        }
    } else {
        ("patterns refs"@, Status::Warn, "missing "@ + c.state.patterns@, Some("aicontext init"@))
    };
    let consistency = match f.consistency {
        Some(schema) => if sv(schema) == Some(CONSISTENCY_SCHEMA@) {
            ("consistency"@, Status::Pass, c.consistency.manifest@, None)
        } else {
            ("consistency"@, Status::Fail, CONSISTENCY@ + " is not aicontext/consistency/v1"@, Some("aicontext init"@))
        },
        None => ("consistency"@, Status::Fail, "missing "@ + CONSISTENCY@, Some("aicontext init"@)),
    };
    seq![state, patterns, consistency]
}

pub open spec fn usable_graphs(f: DoctorFacts) -> Seq<Seq<char>> {
    (if tool_state_spec(cfg_of(f), "codebase-memory-mcp"@, f.cbm_available) == ToolState::Usable { seq!["codebase-memory-mcp"@] } else { seq![] })
        + (if tool_state_spec(cfg_of(f), "codegraph"@, f.codegraph_available) == ToolState::Usable { seq!["codegraph"@] } else { seq![] })
}

/// The diagnostic `name` on the skill installed for `agent`, against the
/// text this binary installs.
pub open spec fn skill_diag_for(name: Seq<char>, agent: Seq<char>, skill: Option<InstalledSkill>, f: DoctorFacts) -> DiagView {
    match skill {
        None => (name, Status::Warn, "aicontext-adopt is not installed for "@ + agent, Some("aicontext agent install "@ + agent)),
        Some(i) => if i.body@ == f.skill_body@ {
            (name, Status::Pass, "aicontext-adopt up to date for "@ + agent + " (v"@ + f.version@ + ")"@, None)
        } else {
            (name, Status::Warn, "installed skill differs from this binary (installed: "@
                + (match i.version { Some(v) => v@, None => "unmanaged"@ }) + ", binary: v"@ + f.version@ + ")"@,
                Some("aicontext agent install "@ + agent))
        },
    }
}

/// The skill installed for pi.
pub open spec fn skill_diag(f: DoctorFacts) -> DiagView {
    skill_diag_for("skill"@, "pi"@, f.skill, f)
}

/// The skill installed for opencode, a diagnostic of its own.
pub open spec fn opencode_skill_diag(f: DoctorFacts) -> DiagView {
    skill_diag_for("skill.opencode"@, "opencode"@, f.opencode_skill, f)
}

pub open spec fn rtk_diags(f: DoctorFacts) -> Seq<DiagView> {
    match f.rtk {
        None => seq![],
        Some(None) => seq![("rtk"@, Status::Pass, "Rust Token Killer healthy (`rtk gain` works)"@, None)],
        Some(Some(d)) => seq![("rtk"@, Status::Fail, d@, Some("install Rust Token Killer from rtk-ai/rtk"@))],
    }
}

pub open spec fn tgrep_diags(f: DoctorFacts) -> Seq<DiagView> {
    match f.tgrep {
        TgrepIndex::Absent => seq![],
        TgrepIndex::NotInstalled => seq![("tgrep index"@, Status::Warn, ".tgrep/ exists but tgrep is not installed"@, Some("install tgrep or delete .tgrep/"@))],
        TgrepIndex::Status(Some(s)) => seq![("tgrep index"@, Status::Pass, s@, None)],
        TgrepIndex::Status(None) => seq![("tgrep index"@, Status::Warn, ".tgrep/ exists but `tgrep status` fails; the index may be corrupt"@, Some("rebuild with `tgrep index .`"@))],
    }
}

pub open spec fn graph_diags(f: DoctorFacts) -> Seq<DiagView> {
    match f.complexity {
        Some(c) => if c.profile@ == "large"@ {
            if usable_graphs(f).len() == 0 {
                seq![("graph backend"@, Status::Warn, "large repo ("@ + c.reason@ + "), no graph backend — impact queries degraded"@, Some("run `aicontext tools plan`"@))]
            } else {
                seq![("graph backend"@, Status::Pass, "large repo ("@ + c.reason@ + "): graph backend available ("@ + join(usable_graphs(f), ", "@) + ")"@, None)]
            }
        } else {
            seq![]
        },
        None => seq![],
    }
}

pub open spec fn engineering_diags(f: DoctorFacts) -> Seq<DiagView> {
    match f.engineering {
        EngineeringDetection::Absent => seq![],
        EngineeringDetection::Supported(info) => seq![("engineering"@, Status::Pass, "engineering-managed (recipe "@ + info.recipe@ + ", "@
            + decimal(info.surfaces.len() as nat) + " surface(s) via .engineering/project-map.json)"@, None)],
        EngineeringDetection::Unsupported { reason, .. } => seq![("engineering"@, Status::Warn, "engineering contracts present but unsupported: "@ + reason@,
            Some("upgrade aicontext or regenerate with a compatible Engineering Platform; see `aicontext check`"@))],
    }
}

pub open spec fn tail_diags(f: DoctorFacts) -> Seq<DiagView> {
    seq![skill_diag(f), opencode_skill_diag(f)] + rtk_diags(f) + tgrep_diags(f) + graph_diags(f) + engineering_diags(f)
}

/// Every diagnostic of `doctor`, in order: cli, git, config (then state
/// markers, pattern references and consistency when it loads), ast-grep,
/// skill, rtk (with an rtk binary), tgrep index (with a `.tgrep/`), graph
/// backend (on a large repo) and engineering (when contracts exist).
pub open spec fn doctor_spec(f: DoctorFacts) -> Seq<DiagView> {
    let cli = ("cli"@, Status::Pass, "aicontext "@ + f.version@, None);
    let git = if f.git.available {
        ("git"@, Status::Pass, match f.git.version { Some(v) => v@, None => "available"@ }, None)
    } else {
        ("git"@, Status::Fail, "git binary not found; Git is the source of truth for scan"@, Some("install git and re-run"@))
    };
    let config = match f.config {
        Ok(c) => seq![("config"@, Status::Pass, REPO_MANIFEST@ + " (schema "@ + c.schema@ + ")"@, None)] + config_diags(c, f),
        Err(e) => seq![("config"@, Status::Fail, e@, Some("aicontext init"@))],
    };
    let sg = if f.sg.available {
        ("ast-grep"@, Status::Pass, match f.sg.version { Some(v) => v@, None => "available"@ }, None)
    } else {
        ("ast-grep"@, Status::Warn, "absent — structural search and rules degraded"@, Some("see `aicontext tools plan`"@))
    };
    seq![cli, git] + config + seq![sg] + tail_diags(f)
}

fn or_available(o: &Option<String>) -> (r: String)
    ensures
        r@ == match *o { Some(v) => v@, None => "available"@ },
{
    match o {
        Some(v) => v.clone(),
        None => string_from("available"),
    }
}

fn push_config_diags(out: &mut Vec<Diagnostic>, c: &RepoConfig, f: &DoctorFacts)
    ensures
        final(out)@.map_values(|d: Diagnostic| dv(d)) == old(out)@.map_values(|d: Diagnostic| dv(d)) + config_diags(*c, *f),
{
    let ghost start = out@.map_values(|d: Diagnostic| dv(d));
    match &f.state_text {
        Some(t) => {
            if has_state_markers(t.as_str()) {
                out.push(ok("state markers", c.state.project_state.clone()));
            } else {
                out.push(fail("state markers", string_from("PROJECT_STATE.md lacks generated/curated markers"), "aicontext init"));
            }
        },
        None => {
            let mut d = string_from("missing ");
            push_str(&mut d, c.state.project_state.as_str());
            out.push(fail("state markers", d, "aicontext init"));
        },
    }
    if f.patterns_exists {
        if f.broken_refs.len() == 0 {
            out.push(ok("patterns refs", c.state.patterns.clone()));
        } else {
            let mut d = String::new();
            push_decimal(&mut d, f.broken_refs.len() as u64);
            push_str(&mut d, " broken reference(s): ");
            push_str(&mut d, join_strs(&f.broken_refs, ", ").as_str());
            out.push(warn("patterns refs", d, "fix paths in PATTERNS.md or re-run adoption"));
        }
    } else {
        let mut d = string_from("missing ");
        push_str(&mut d, c.state.patterns.as_str());
        out.push(warn("patterns refs", d, "aicontext init"));
    }
    match &f.consistency {
        Some(schema) => {
            let good = match schema {
                Some(s) => same_str(s.as_str(), CONSISTENCY_SCHEMA),
                None => false,
            };
            if good {
                out.push(ok("consistency", c.consistency.manifest.clone()));
            } else {
                let mut d = string_from(CONSISTENCY);
                push_str(&mut d, " is not aicontext/consistency/v1");
                out.push(fail("consistency", d, "aicontext init"));
            }
        },
        None => {
            let mut d = string_from("missing ");
            push_str(&mut d, CONSISTENCY);
            out.push(fail("consistency", d, "aicontext init"));
        },
    }
    assert(out@.map_values(|d: Diagnostic| dv(d)) =~= start + config_diags(*c, *f));
}

fn skill_diag_exec(name: &str, agent: &str, skill: &Option<InstalledSkill>, f: &DoctorFacts) -> (r: Diagnostic)
    ensures
        dv(r) == skill_diag_for(name@, agent@, *skill, *f),
{
    let mut remediation = string_from("aicontext agent install ");
    push_str(&mut remediation, agent);
    match skill {
        None => {
            let mut d = string_from("aicontext-adopt is not installed for ");
            push_str(&mut d, agent);
            warn(name, d, remediation.as_str())
        },
        Some(i) => {
            if same_str(i.body.as_str(), f.skill_body.as_str()) {
                let mut d = string_from("aicontext-adopt up to date for ");
                push_str(&mut d, agent);
                push_str(&mut d, " (v");
                push_str(&mut d, f.version.as_str());
                push_str(&mut d, ")");
                ok(name, d)
            } else {
                let mut d = string_from("installed skill differs from this binary (installed: ");
                match &i.version {
                    Some(v) => push_str(&mut d, v.as_str()),
                    None => push_str(&mut d, "unmanaged"),
                }
                push_str(&mut d, ", binary: v");
                push_str(&mut d, f.version.as_str());
                push_str(&mut d, ")");
                warn(name, d, remediation.as_str())
            }
        },
    }
}

fn push_rtk_tgrep(out: &mut Vec<Diagnostic>, f: &DoctorFacts)
    ensures
        final(out)@.map_values(|d: Diagnostic| dv(d)) == old(out)@.map_values(|d: Diagnostic| dv(d)) + rtk_diags(*f) + tgrep_diags(*f),
{
    let ghost start = out@.map_values(|d: Diagnostic| dv(d));
    match &f.rtk {
        None => {},
        Some(None) => out.push(ok("rtk", string_from("Rust Token Killer healthy (`rtk gain` works)"))),
        Some(Some(d)) => out.push(fail("rtk", d.clone(), "install Rust Token Killer from rtk-ai/rtk")),
    }
    assert(out@.map_values(|d: Diagnostic| dv(d)) =~= start + rtk_diags(*f));
    let ghost s1 = out@.map_values(|d: Diagnostic| dv(d));
    match &f.tgrep {
        TgrepIndex::Absent => {},
        TgrepIndex::NotInstalled => out.push(warn("tgrep index", string_from(".tgrep/ exists but tgrep is not installed"), "install tgrep or delete .tgrep/")),
        TgrepIndex::Status(Some(s)) => out.push(ok("tgrep index", s.clone())),
        TgrepIndex::Status(None) => out.push(warn("tgrep index", string_from(".tgrep/ exists but `tgrep status` fails; the index may be corrupt"), "rebuild with `tgrep index .`")),
    }
    assert(out@.map_values(|d: Diagnostic| dv(d)) =~= s1 + tgrep_diags(*f));
}

fn push_graph(out: &mut Vec<Diagnostic>, f: &DoctorFacts)
    ensures
        final(out)@.map_values(|d: Diagnostic| dv(d)) == old(out)@.map_values(|d: Diagnostic| dv(d)) + graph_diags(*f),
{
    let ghost start = out@.map_values(|d: Diagnostic| dv(d));
    match &f.complexity {
        Some(c) => {
            if same_str(c.profile.as_str(), "large") {
                let cfg = match &f.config {
                    Ok(x) => Some(x),
                    Err(_) => None,
                };
                let mut usable: Vec<String> = Vec::new();
                match tool_state(cfg, "codebase-memory-mcp", f.cbm_available) {
                    ToolState::Usable => usable.push(string_from("codebase-memory-mcp")),
                    _ => {},
                }
                match tool_state(cfg, "codegraph", f.codegraph_available) {
                    ToolState::Usable => usable.push(string_from("codegraph")),
                    _ => {},
                }
                assert(usable.deep_view() =~= usable_graphs(*f));
                if usable.len() == 0 {
                    let mut d = string_from("large repo (");
                    push_str(&mut d, c.reason.as_str());
                    push_str(&mut d, "), no graph backend — impact queries degraded");
                    out.push(warn("graph backend", d, "run `aicontext tools plan`"));
                } else {
                    let mut d = string_from("large repo (");
                    push_str(&mut d, c.reason.as_str());
                    push_str(&mut d, "): graph backend available (");
                    push_str(&mut d, join_strs(&usable, ", ").as_str());
                    push_str(&mut d, ")");
                    out.push(ok("graph backend", d));
                }
            }
        },
        None => {},
    }
    assert(out@.map_values(|d: Diagnostic| dv(d)) =~= start + graph_diags(*f));
}

fn push_engineering(out: &mut Vec<Diagnostic>, f: &DoctorFacts)
    ensures
        final(out)@.map_values(|d: Diagnostic| dv(d)) == old(out)@.map_values(|d: Diagnostic| dv(d)) + engineering_diags(*f),
{
    let ghost start = out@.map_values(|d: Diagnostic| dv(d));
    match &f.engineering {
        EngineeringDetection::Absent => {},
        EngineeringDetection::Supported(info) => {
            let mut d = string_from("engineering-managed (recipe ");
            push_str(&mut d, info.recipe.as_str());
            push_str(&mut d, ", ");
            push_decimal(&mut d, info.surfaces.len() as u64);
            push_str(&mut d, " surface(s) via .engineering/project-map.json)");
            out.push(ok("engineering", d));
        },
        EngineeringDetection::Unsupported { reason, .. } => {
            let mut d = string_from("engineering contracts present but unsupported: ");
            push_str(&mut d, reason.as_str());
            out.push(warn("engineering", d, "upgrade aicontext or regenerate with a compatible Engineering Platform; see `aicontext check`"));
        },
    }
    assert(out@.map_values(|d: Diagnostic| dv(d)) =~= start + engineering_diags(*f));
}

fn push_tail_diags(out: &mut Vec<Diagnostic>, f: &DoctorFacts)
    ensures
        final(out)@.map_values(|d: Diagnostic| dv(d)) == old(out)@.map_values(|d: Diagnostic| dv(d)) + tail_diags(*f),
{
    let ghost start = out@.map_values(|d: Diagnostic| dv(d));
    out.push(skill_diag_exec("skill", "pi", &f.skill, f));
    out.push(skill_diag_exec("skill.opencode", "opencode", &f.opencode_skill, f));
    assert(out@.map_values(|d: Diagnostic| dv(d)) =~= start + seq![skill_diag(*f), opencode_skill_diag(*f)]);
    push_rtk_tgrep(out, f);
    push_graph(out, f);
    push_engineering(out, f);
    assert(out@.map_values(|d: Diagnostic| dv(d)) =~= start + tail_diags(*f));
}

/// Every diagnostic of `doctor` (see [`doctor_spec`]).
pub fn run_doctor(f: &DoctorFacts) -> (r: Vec<Diagnostic>)
    ensures
        r@.map_values(|d: Diagnostic| dv(d)) == doctor_spec(*f),
{
    let mut out: Vec<Diagnostic> = Vec::new();
    let mut cli = string_from("aicontext ");
    push_str(&mut cli, f.version.as_str());
    out.push(ok("cli", cli));
    if f.git.available {
        out.push(ok("git", or_available(&f.git.version)));
    } else {
        out.push(fail("git", string_from("git binary not found; Git is the source of truth for scan"), "install git and re-run"));
    }
    let ghost s0 = out@.map_values(|d: Diagnostic| dv(d));
    assert(s0 =~= seq![("cli"@, Status::Pass, "aicontext "@ + f.version@, None),
        if f.git.available {
            ("git"@, Status::Pass, match f.git.version { Some(v) => v@, None => "available"@ }, None)
        } else {
            ("git"@, Status::Fail, "git binary not found; Git is the source of truth for scan"@, Some("install git and re-run"@))
        }]);
    match &f.config {
        Ok(c) => {
            let mut d = string_from(REPO_MANIFEST);
            push_str(&mut d, " (schema ");
            push_str(&mut d, c.schema.as_str());
            push_str(&mut d, ")");
            out.push(ok("config", d));
            assert(out@.map_values(|d: Diagnostic| dv(d)) =~= s0 + seq![("config"@, Status::Pass, REPO_MANIFEST@ + " (schema "@ + c.schema@ + ")"@, None)]);
            push_config_diags(&mut out, c, f);
        },
        Err(e) => {
            out.push(fail("config", e.clone(), "aicontext init"));
        },
    }
    let ghost s1 = out@.map_values(|d: Diagnostic| dv(d));
    if f.sg.available {
        out.push(ok("ast-grep", or_available(&f.sg.version)));
    } else {
        out.push(warn("ast-grep", string_from("absent — structural search and rules degraded"), "see `aicontext tools plan`"));
    }
    let ghost s2 = out@.map_values(|d: Diagnostic| dv(d));
    assert(s2 =~= s1.push(if f.sg.available {
        ("ast-grep"@, Status::Pass, match f.sg.version { Some(v) => v@, None => "available"@ }, None)
    } else {
        ("ast-grep"@, Status::Warn, "absent — structural search and rules degraded"@, Some("see `aicontext tools plan`"@))
    }));
    push_tail_diags(&mut out, f);
    assert(out@.map_values(|d: Diagnostic| dv(d)) =~= doctor_spec(*f));
    out
}

/// `doctor` exits 1 when a diagnostic failed, 0 otherwise (warnings never
/// fail it).
pub fn doctor_exit_code(diags: &Vec<Diagnostic>) -> (r: i32)
    ensures
        r == if (exists|i: int| 0 <= i < diags.len() && (#[trigger] diags@[i]).status == Status::Fail) { 1i32 } else { 0i32 },
{
    let mut i: usize = 0;
    while i < diags.len()
        invariant
            i <= diags.len(),
            forall|k: int| 0 <= k < i ==> (#[trigger] diags@[k]).status != Status::Fail,
        decreases diags.len() - i,
    {
        if diags[i].status == Status::Fail {
            return 1;
        }
        i += 1;
    }
    0
}


/// The diagnostics that can fail `doctor`: git, the manifest, the state
/// markers, the consistency manifest and a broken rtk.
pub open spec fn may_block(name: Seq<char>) -> bool {
    name == "git"@ || name == "config"@ || name == "state markers"@ || name == "consistency"@ || name == "rtk"@
}

pub open spec fn fails_only_blocking(s: Seq<DiagView>) -> bool {
    forall|i: int| 0 <= i < s.len() && (#[trigger] s[i]).1 == Status::Fail ==> may_block(s[i].0)
}

proof fn lemma_fails_only_blocking_concat(a: Seq<DiagView>, b: Seq<DiagView>)
    requires
        fails_only_blocking(a),
        fails_only_blocking(b),
    ensures
        fails_only_blocking(a + b),
{
    assert forall|i: int| 0 <= i < (a + b).len() && (#[trigger] (a + b)[i]).1 == Status::Fail implies may_block(
        (a + b)[i].0,
    ) by {
        if i < a.len() {
            assert((a + b)[i] == a[i]);
        } else {
            assert((a + b)[i] == b[i - a.len()]);
        }
    }
}

/// Missing optional tools never fail `doctor`: a failed diagnostic is
/// always git, the manifest, the state markers, the consistency manifest or
/// a broken rtk; ast-grep, the skill, the tgrep index, the graph backend
/// and engineering contracts warn at most.
pub proof fn lemma_doctor_optional_never_fail(f: DoctorFacts)
    ensures
        fails_only_blocking(doctor_spec(f)),
{
    let config = match f.config {
        Ok(c) => seq![("config"@, Status::Pass, REPO_MANIFEST@ + " (schema "@ + c.schema@ + ")"@, None)] + config_diags(c, f),
        Err(e) => seq![("config"@, Status::Fail, e@, Some("aicontext init"@))],
    };
    if let Ok(c) = f.config {
        let cd = config_diags(c, f);
        assert(fails_only_blocking(cd)) by {
            assert forall|i: int| 0 <= i < cd.len() && (#[trigger] cd[i]).1 == Status::Fail implies may_block(cd[i].0) by {
                assert(i == 0 || i == 1 || i == 2);
            }
        }
        lemma_fails_only_blocking_concat(seq![("config"@, Status::Pass, REPO_MANIFEST@ + " (schema "@ + c.schema@ + ")"@, None)], cd);
    }
    let s = doctor_spec(f);
    let t = tail_diags(f);
    assert(fails_only_blocking(t)) by {
        lemma_fails_only_blocking_concat(seq![skill_diag(f)], rtk_diags(f));
        lemma_fails_only_blocking_concat(seq![skill_diag(f), opencode_skill_diag(f)] + rtk_diags(f), tgrep_diags(f));
        lemma_fails_only_blocking_concat(seq![skill_diag(f), opencode_skill_diag(f)] + rtk_diags(f) + tgrep_diags(f), graph_diags(f));
        lemma_fails_only_blocking_concat(seq![skill_diag(f), opencode_skill_diag(f)] + rtk_diags(f) + tgrep_diags(f) + graph_diags(f), engineering_diags(f));
    }
    let sg = s[s.len() - t.len() - 1];
    let front = s.subrange(0, 2);
    assert(fails_only_blocking(front)) by {
        assert forall|i: int| 0 <= i < front.len() && (#[trigger] front[i]).1 == Status::Fail implies may_block(front[i].0) by {
            assert(i == 0 || i == 1);
        }
    }
    assert(s =~= front + config + seq![sg] + t);
    assert(fails_only_blocking(seq![sg])) by {
        assert forall|i: int| 0 <= i < seq![sg].len() && (#[trigger] seq![sg][i]).1 == Status::Fail implies may_block(seq![sg][i].0) by {
            assert(i == 0);
        }
    }
    lemma_fails_only_blocking_concat(front, config);
    lemma_fails_only_blocking_concat(front + config, seq![sg]);
    lemma_fails_only_blocking_concat(front + config + seq![sg], t);
}

/// Git is required: without it `doctor` reports a failed `git`
/// diagnostic (second, after `cli`) and so exits 1; with it that
/// diagnostic passes.
pub proof fn lemma_doctor_requires_git(f: DoctorFacts)
    ensures
        doctor_spec(f).len() >= 2,
        doctor_spec(f)[1].0 == "git"@,
        doctor_spec(f)[1].1 == Status::Fail <==> !f.git.available,
        doctor_spec(f)[1].1 == Status::Pass <==> f.git.available,
        !f.git.available ==> exists|i: int| 0 <= i < doctor_spec(f).len() && (#[trigger] doctor_spec(f)[i]).1 == Status::Fail,
{
    let s = doctor_spec(f);
    assert(s[1] == if f.git.available {
        ("git"@, Status::Pass, match f.git.version { Some(v) => v@, None => "available"@ }, None)
    } else {
        ("git"@, Status::Fail, "git binary not found; Git is the source of truth for scan"@, Some("install git and re-run"@))
    });
    if !f.git.available {
        assert(s[1].1 == Status::Fail);
    }
}

/// The repository manifest is required too: when it cannot be loaded the
/// third diagnostic is a failed `config` pointing at `aicontext init`.
pub proof fn lemma_doctor_requires_manifest(f: DoctorFacts)
    ensures
        doctor_spec(f).len() >= 3,
        doctor_spec(f)[2].0 == "config"@,
        doctor_spec(f)[2].1 == Status::Fail <==> f.config is Err,
        f.config is Err ==> doctor_spec(f)[2].3 == Some("aicontext init"@),
{
    let s = doctor_spec(f);
    match f.config {
        Ok(c) => {
            assert(s[2] == ("config"@, Status::Pass, REPO_MANIFEST@ + " (schema "@ + c.schema@ + ")"@, None::<Seq<char>>));
        },
        Err(e) => {
            assert(s[2] == ("config"@, Status::Fail, e@, Some("aicontext init"@)));
        },
    }
}

} // verus!
