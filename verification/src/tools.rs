use vstd::prelude::*;

use crate::config::RepoConfig;
use crate::scan::{ComplexityInfo, GitInfo, ScanReport, SubprojectsSource, SCAN_SCHEMA};
use crate::text::{same_str, string_from};

verus! {

/// Remediation for codebase-memory-mcp: manual install of a release binary
/// plus checksum; nothing is ever installed automatically.
pub const CODEBASE_MEMORY_INSTALL: &'static str = "download the official release binary + checksum from https://github.com/DeusData/codebase-memory-mcp (its `install` subcommand only configures MCP clients and is never run by AIContext)";

/// Availability of one external tool.
#[derive(Debug, Clone)]
pub struct ToolInfo {
    pub name: String,
    pub available: bool,
    pub version: Option<String>,
    pub managed_by: String,
}

pub open spec fn opt_view(o: Option<String>) -> Option<Seq<char>> {
    match o {
        Some(s) => Some(s@),
        None => None,
    }
}

/// Second program probed for a tool whose first probe failed: `sg` for
/// `ast-grep`.
pub fn fallback_program(name: &str) -> (r: Option<&'static str>)
    ensures
        name@ == "ast-grep"@ ==> r == Some("sg"),
        name@ != "ast-grep"@ ==> r is None,
{
    if same_str(name, "ast-grep") {
        Some("sg")
    } else {
        None
    }
}

/// The version a successful `--version` probe reports: the first line of
/// its output, trimmed; `unknown` when that is empty.
pub open spec fn probe_version_spec(stdout: Seq<char>) -> Seq<char> {
    let ls = crate::text::lines(stdout);
    let first = if ls.len() > 0 { crate::text::trim(ls[0]) } else { seq![] };
    if first.len() == 0 { "unknown"@ } else { first }
}

pub fn probe_version(stdout: &str) -> (r: String)
    ensures
        r@ == probe_version_spec(stdout@),
{
    let ls = crate::text::lines_exec(&crate::text::chars_of(stdout));
    if ls.len() == 0 {
        return string_from("unknown");
    }
    assert(ls@.map_values(|l: Vec<char>| l@)[0] == ls@[0]@);
    let line = crate::text::string_of(&ls[0]);
    let first = crate::text::trim_string(line.as_str());
    proof {
        reveal_strlit("");
        assert(""@ =~= Seq::<char>::empty());
        if first@.len() == 0 {
            assert(first@ =~= ""@);
        }
        assert(first@ == crate::text::trim(crate::text::lines(stdout@)[0]));
    }
    if same_str(first.as_str(), "") {
        string_from("unknown")
    } else {
        first
    }
}

/// The version of one probe: its normalized output when it succeeded.
pub open spec fn probe_answer(stdout: Option<Seq<char>>) -> Option<Seq<char>> {
    match stdout {
        Some(o) => Some(probe_version_spec(o)),
        None => None,
    }
}

fn answer(stdout: Option<String>) -> (r: Option<String>)
    ensures
        opt_view(r) == probe_answer(opt_view(stdout)),
{
    match stdout {
        Some(o) => Some(probe_version(o.as_str())),
        None => None,
    }
}

/// A tool is available exactly when a `--version` probe succeeded:
/// `probed` is the output of the tool's probe, `fallback` that of the
/// fallback program (`sg` for `ast-grep`), each `None` when the probe
/// failed or did not finish in time. The version is the first probe's
/// normalized output, else the fallback's.
pub fn detect_tool(name: &str, probed: Option<String>, fallback: Option<String>) -> (r: ToolInfo)
    ensures
        r.name@ == name@,
        opt_view(r.version) == match probe_answer(opt_view(probed)) {
            Some(v) => Some(v),
            None => if name@ == "ast-grep"@ { probe_answer(opt_view(fallback)) } else { None },
        },
        r.available == (r.version is Some),
        r.managed_by@ == "external"@,
{
    let version = match probed {
        Some(v) => Some(probe_version(v.as_str())),
        None => if fallback_program(name).is_some() {
            answer(fallback)
        } else {
            None
        },
    };
    ToolInfo { name: string_from(name), available: version.is_some(), version, managed_by: string_from("external") }
}

/// The tools every scan probes, in probing order.
pub open spec fn core_tools_spec() -> Seq<Seq<char>> {
    seq!["git"@, "ast-grep"@, "rg"@, "tgrep"@, "rtk"@, "codebase-memory-mcp"@, "codegraph"@]
}

pub fn core_tool_names() -> (r: Vec<&'static str>)
    ensures
        r@.len() == 7,
        forall|i: int| 0 <= i < 7 ==> #[trigger] r@[i]@ == core_tools_spec()[i],
        r@[0]@ == "git"@,
        r@[1]@ == "ast-grep"@,
        r@[2]@ == "rg"@,
        r@[3]@ == "tgrep"@,
        r@[4]@ == "rtk"@,
        r@[5]@ == "codebase-memory-mcp"@,
        r@[6]@ == "codegraph"@,
{
    vec!["git", "ast-grep", "rg", "tgrep", "rtk", "codebase-memory-mcp", "codegraph"]
}

/// The core tools with their probe outputs: `probed[i]` is the output of
/// the `--version` probe of `core_tool_names()[i]`, `sg` that of the `sg`
/// fallback for `ast-grep` (each `None` when the probe failed).
pub fn detect_core_tools(probed: Vec<Option<String>>, sg: Option<String>) -> (r: Vec<ToolInfo>)
    requires
        probed@.len() == 7,
    ensures
        r@.len() == 7,
        forall|i: int| 0 <= i < 7 ==> #[trigger] r@[i].name@ == core_tools_spec()[i] && r@[i].available == (r@[i].version is Some),
        forall|i: int| 0 <= i < 7 && i != 1 ==> opt_view(#[trigger] r@[i].version) == probe_answer(opt_view(probed@[i])),
        opt_view(r@[1].version) == match probe_answer(opt_view(probed@[1])) { Some(v) => Some(v), None => probe_answer(opt_view(sg)) },
{
    let names = core_tool_names();
    let mut out: Vec<ToolInfo> = Vec::new();
    let mut rest = probed;
    let ghost all = probed@;
    let mut sg = sg;
    let ghost sg0 = sg;
    let mut i: usize = 0;
    let ghost names_v = names@;
    while i < 7
        invariant
            i <= 7,
            names@ == names_v,
            names_v.len() == 7,
            forall|k: int| 0 <= k < 7 ==> #[trigger] names_v[k]@ == core_tools_spec()[k],
            all.len() == 7,
            rest@ == all.subrange(i as int, 7),
            sg == sg0,
            out@.len() == i,
            forall|k: int| 0 <= k < i ==> (#[trigger] out@[k]).name@ == names_v[k]@,
            forall|k: int| 0 <= k < i ==> (#[trigger] out@[k]).available == (out@[k].version is Some),
            forall|k: int| 0 <= k < i && k != 1 ==> opt_view(#[trigger] out@[k].version) == probe_answer(opt_view(all[k])),
            i > 1 ==> opt_view(out@[1].version) == match probe_answer(opt_view(all[1])) { Some(v) => Some(v), None => probe_answer(opt_view(sg0)) },
        decreases 7 - i,
    {
        let p = rest.remove(0);
        assert(p == all[i as int]);
        assert(rest@ =~= all.subrange(i + 1, 7));
        let f = if i == 1 { sg.clone() } else { None };
        let name = names[i];
        assert(name@ == names_v[i as int]@);
        let t = detect_tool(name, p, f);
        let ghost before = out@;
        out.push(t);
        assert(out@[i as int] == t);
        assert(forall|k: int| 0 <= k < i ==> out@[k] == before[k]);
        assert(out@[i as int].name@ == names_v[i as int]@);
        assert(out@[i as int].available == (out@[i as int].version is Some));
        i += 1;
    }
    out
}

/// Where an optional tool stands before it is invoked.
#[derive(Debug, Clone, Copy, PartialEq, Eq, Structural)]
pub enum ToolState {
    /// `mode = "off"` in aicontext.toml.
    Disabled,
    /// Not installed.
    Missing,
    /// Installed and enabled.
    Usable,
}

/// Per-tool mode from aicontext.toml (`auto` for tools without a mode).
pub open spec fn tool_mode_spec(cfg: RepoConfig, tool: Seq<char>) -> Seq<char> {
    if tool == "tgrep"@ {
        cfg.tools.tgrep.mode@
    } else if tool == "codegraph"@ {
        cfg.tools.codegraph.mode@
    } else if tool == "codebase-memory-mcp"@ {
        cfg.tools.codebase_memory.mode@
    } else if tool == "rtk"@ {
        cfg.tools.rtk.mode@
    } else {
        "auto"@
    }
}

pub fn tool_mode(cfg: &RepoConfig, tool: &str) -> (r: String)
    ensures
        r@ == tool_mode_spec(*cfg, tool@),
{
    if same_str(tool, "tgrep") {
        cfg.tools.tgrep.mode.clone()
    } else if same_str(tool, "codegraph") {
        cfg.tools.codegraph.mode.clone()
    } else if same_str(tool, "codebase-memory-mcp") {
        cfg.tools.codebase_memory.mode.clone()
    } else if same_str(tool, "rtk") {
        cfg.tools.rtk.mode.clone()
    } else {
        string_from("auto")
    }
}

/// `mode = "off"` disables an optional tool without uninstalling it;
/// otherwise it is usable exactly when installed.
pub open spec fn tool_state_spec(cfg: Option<RepoConfig>, tool: Seq<char>, available: bool) -> ToolState {
    if cfg matches Some(c) && tool_mode_spec(c, tool) == "off"@ {
        ToolState::Disabled
    } else if available {
        ToolState::Usable
    } else {
        ToolState::Missing
    }
}

pub fn tool_state(cfg: Option<&RepoConfig>, tool: &str, available: bool) -> (r: ToolState)
    ensures
        r == tool_state_spec(match cfg { Some(c) => Some(*c), None => None }, tool@, available),
{
    let off = match cfg {
        Some(c) => same_str(tool_mode(c, tool).as_str(), "off"),
        None => false,
    };
    if off {
        ToolState::Disabled
    } else if available {
        ToolState::Usable
    } else {
        ToolState::Missing
    }
}

/// RTK name-collision trap: `rtk gain` must succeed for Rust Token Killer.
/// `gain_succeeded` is `None` when the command could not run at all.
pub fn rtk_health(gain_succeeded: Option<bool>) -> (r: Option<String>)
    ensures
        gain_succeeded != Some(false) ==> r is None,
        gain_succeeded == Some(false) ==> (r matches Some(m) && m@ == RTK_COLLISION@),
{
    match gain_succeeded {
        Some(false) => Some(string_from(RTK_COLLISION)),
        _ => None,
    }
}

pub const RTK_COLLISION: &'static str = "RTK binary exists but `rtk gain` fails: likely a different package named rtk is installed. Install Rust Token Killer from rtk-ai/rtk.";

/// The report used when a scan is unavailable: nothing measured, small.
pub fn empty_report(root: &str) -> (r: ScanReport)
    ensures
        r.schema@ == SCAN_SCHEMA@,
        r.git.root@ == root@,
        r.git.head is None && r.git.short_head is None && r.git.branch is None,
        r.git.tracked_files == 0,
        r.languages.len() == 0 && r.packages.len() == 0 && r.commands.len() == 0 && r.tools.len() == 0,
        r.complexity.profile@ == "small"@,
        r.complexity.source_files == 0 && r.complexity.loc == 0 && r.complexity.workspaces == 0
            && r.complexity.languages == 0,
        r.complexity.reason@ == "scan unavailable"@,
        r.version_candidates.len() == 0 && r.docs.len() == 0 && r.ci.len() == 0 && r.subprojects.len() == 0,
        r.subprojects_source.mode@ == "none"@,
        r.subprojects_source.declared.len() == 0 && r.subprojects_source.unresolved.len() == 0
            && r.subprojects_source.containers.len() == 0,
        r.engineering is None,
{
    ScanReport {
        schema: string_from(SCAN_SCHEMA),
        git: GitInfo { root: string_from(root), head: None, short_head: None, branch: None, tracked_files: 0 },
        languages: Vec::new(),
        packages: Vec::new(),
        commands: Vec::new(),
        tools: Vec::new(),
        complexity: ComplexityInfo {
            profile: string_from("small"),
            source_files: 0,
            loc: 0,
            workspaces: 0,
            languages: 0,
            reason: string_from("scan unavailable"),
        },
        version_candidates: Vec::new(),
        docs: Vec::new(),
        ci: Vec::new(),
        subprojects: Vec::new(),
        subprojects_source: SubprojectsSource {
            mode: string_from("none"),
            declared: Vec::new(),
            unresolved: Vec::new(),
            containers: Vec::new(),
        },
        engineering: None,
    }
}


/// A single recommendation row in `tools plan`.
#[derive(Debug, Clone)]
pub struct PlanEntry {
    pub tool: String,
    pub level: String,
    pub state: String,
    pub reason: String,
    pub version: Option<String>,
    pub install: Option<String>,
}

#[derive(Debug, Clone)]
pub struct PlanSection {
    pub title: String,
    pub entries: Vec<PlanEntry>,
}

/// Observable content of a plan entry.
pub type EntryView = (Seq<char>, Seq<char>, Seq<char>, Seq<char>, Option<Seq<char>>, Option<Seq<char>>);

pub open spec fn entry_view(e: PlanEntry) -> EntryView {
    (e.tool@, e.level@, e.state@, e.reason@, opt_view(e.version), opt_view(e.install))
}

pub open spec fn section_view(s: PlanSection) -> (Seq<char>, Seq<EntryView>) {
    (s.title@, s.entries@.map_values(|e: PlanEntry| entry_view(e)))
}

/// Probe answer for `name` among `tools` (first match), if any.
pub open spec fn probe_of(tools: Seq<ToolInfo>, name: Seq<char>) -> Option<ToolInfo>
    decreases tools.len(),
{
    if tools.len() == 0 {
        None
    } else if tools[0].name@ == name {
        Some(tools[0])
    } else {
        probe_of(tools.drop_first(), name)
    }
}

pub fn find_probe<'a>(tools: &'a Vec<ToolInfo>, name: &str) -> (r: Option<&'a ToolInfo>)
    ensures
        match r {
            Some(p) => probe_of(tools@, name@) == Some(*p),
            None => probe_of(tools@, name@) is None,
        },
{
    let ghost all = tools@;
    let mut i: usize = 0;
    assert(all.subrange(0, all.len() as int) =~= all);
    while i < tools.len()
        invariant
            i <= tools.len(),
            all == tools@,
            probe_of(all, name@) == probe_of(all.subrange(i as int, all.len() as int), name@),
        decreases tools.len() - i,
    {
        assert(all.subrange(i as int, all.len() as int).drop_first() =~= all.subrange(i + 1, all.len() as int));
        assert(all.subrange(i as int, all.len() as int)[0] == all[i as int]);
        if same_str(tools[i].name.as_str(), name) {
            return Some(&tools[i]);
        }
        i += 1;
    }
    None
}

/// One plan row: disabled tools say so; otherwise the probe decides
/// between `available` (with its version) and `missing`.
pub open spec fn entry_spec(tool: Seq<char>, level: Seq<char>, reason: Seq<char>, install: Option<Seq<char>>, disabled: bool, probe: Option<ToolInfo>) -> EntryView {
    if disabled {
        (tool, level, "disabled"@, "mode = off in aicontext.toml"@, None, None)
    } else {
        let available = probe matches Some(p) && p.available;
        let version = match probe { Some(p) => opt_view(p.version), None => None };
        (tool, level, if available { "available"@ } else { "missing"@ }, reason, version, install)
    }
}

fn opt_clone(o: &Option<String>) -> (r: Option<String>)
    ensures
        opt_view(r) == opt_view(*o),
{
    match o {
        Some(s) => Some(s.clone()),
        None => None,
    }
}

pub fn entry(tool: &str, level: &str, reason: &str, install: Option<&str>, disabled: bool, tools: &Vec<ToolInfo>) -> (r: PlanEntry)
    ensures
        entry_view(r) == entry_spec(tool@, level@, reason@, match install { Some(i) => Some(i@), None => None }, disabled, probe_of(tools@, tool@)),
{
    if disabled {
        return PlanEntry {
            tool: string_from(tool),
            level: string_from(level),
            state: string_from("disabled"),
            reason: string_from("mode = off in aicontext.toml"),
            version: None,
            install: None,
        };
    }
    let probe = find_probe(tools, tool);
    let (available, version) = match probe {
        Some(p) => (p.available, opt_clone(&p.version)),
        None => (false, None),
    };
    PlanEntry {
        tool: string_from(tool),
        level: string_from(level),
        state: if available { string_from("available") } else { string_from("missing") },
        reason: string_from(reason),
        version,
        install: match install { Some(i) => Some(string_from(i)), None => None },
    }
}

/// Repository facts the plan depends on besides the scan report.
pub struct PlanFacts {
    /// `package.json` exists at the root.
    pub js_ts: bool,
    /// `docs/` exists at the root.
    pub docs_dir: bool,
    /// `.github/workflows` exists.
    pub workflows: bool,
    /// The dependency-cruiser config file found at the root, if any.
    pub depcruiser_config: Option<String>,
}

/// Some language stat is markdown with at least 10 files.
pub open spec fn markdown_heavy(langs: Seq<crate::scan::LanguageStat>) -> bool {
    exists|i: int| 0 <= i < langs.len() && langs[i].language@ == "markdown"@ && langs[i].files >= 10
}

fn markdown_heavy_exec(langs: &Vec<crate::scan::LanguageStat>) -> (r: bool)
    ensures
        r == markdown_heavy(langs@),
{
    let mut i: usize = 0;
    while i < langs.len()
        invariant
            i <= langs.len(),
            forall|k: int| 0 <= k < i ==> !(langs@[k].language@ == "markdown"@ && #[trigger] langs@[k].files >= 10),
        decreases langs.len() - i,
    {
        if same_str(langs[i].language.as_str(), "markdown") && langs[i].files >= 10 {
            return true;
        }
        i += 1;
    }
    false
}

pub open spec fn mode_off(cfg: Option<RepoConfig>, tool: Seq<char>) -> bool {
    cfg matches Some(c) && tool_mode_spec(c, tool) == "off"@
}

pub open spec fn depcruiser_reason(config: Option<Seq<char>>) -> Seq<char> {
    match config {
        Some(c) => "boundaries configured ("@ + c + "): module/layer rules as evidence (project-local, never auto-fix)"@,
        None => "JS/TS without boundaries config: formalize only if worth it (project-local, never auto-fix)"@,
    }
}

/// The `tools plan` sections (never installs anything): Required (git),
/// Core (ast-grep), Recommended (tgrep, rtk, and the graph backends on a
/// large or multi-package repo) and Project adapters (knip and
/// dependency-cruiser for JS/TS, lychee for docs-heavy repos, zizmor for
/// GitHub Actions). `mode = "off"` disables the optional tools.
pub open spec fn plan_spec(report: ScanReport, cfg: Option<RepoConfig>, tools: Seq<ToolInfo>, facts: PlanFacts) -> Seq<(Seq<char>, Seq<EntryView>)> {
    seq![
        ("Required"@, plan_required(tools)),
        ("Core"@, plan_core(tools)),
        ("Recommended"@, plan_recommended(report, cfg, tools)),
        ("Project adapters"@, plan_adapters(report, tools, facts)),
    ]
}

pub open spec fn plan_required(tools: Seq<ToolInfo>) -> Seq<EntryView> {
    seq![entry_spec("git"@, "required"@, "Git is the source of truth for root/HEAD/tracked files"@, None, false, probe_of(tools, "git"@))]
}

pub open spec fn plan_core(tools: Seq<ToolInfo>) -> Seq<EntryView> {
    seq![entry_spec("ast-grep"@, "core"@, "structural search, lint rules and explicit rewrites"@, Some(AST_GREP_INSTALL@), false, probe_of(tools, "ast-grep"@))]
}

/// tgrep and rtk always; the graph backends on a large repository or one
/// with four or more workspaces.
pub open spec fn plan_recommended(report: ScanReport, cfg: Option<RepoConfig>, tools: Seq<ToolInfo>) -> Seq<EntryView> {
    let profile = report.complexity.profile@;
    let medium_or_large = profile == "medium"@ || profile == "large"@;
    let base = seq![
        entry_spec("tgrep"@, "recommended"@, if medium_or_large { "medium/large repository: indexed text search"@ } else { "small repository: optional, rg/git-grep suffice"@ }, Some(TGREP_INSTALL@), mode_off(cfg, "tgrep"@), probe_of(tools, "tgrep"@)),
        entry_spec("rtk"@, "recommended"@, RTK_REASON@, Some(RTK_INSTALL@), mode_off(cfg, "rtk"@), probe_of(tools, "rtk"@)),
    ];
    if profile == "large"@ || report.complexity.workspaces >= 4 {
        base + seq![
            entry_spec("codebase-memory-mcp"@, "recommended"@, CBM_REASON@, Some(CODEBASE_MEMORY_INSTALL@), mode_off(cfg, "codebase-memory-mcp"@), probe_of(tools, "codebase-memory-mcp"@)),
            entry_spec("codegraph"@, "recommended"@, CODEGRAPH_REASON@, Some(CODEGRAPH_INSTALL@), mode_off(cfg, "codegraph"@), probe_of(tools, "codegraph"@)),
        ]
    } else {
        base
    }
}

/// knip and dependency-cruiser for JS/TS, lychee when `docs/` exists or the
/// repository is markdown-heavy, zizmor when GitHub workflows exist.
pub open spec fn plan_adapters(report: ScanReport, tools: Seq<ToolInfo>, facts: PlanFacts) -> Seq<EntryView> {
    let a1 = if facts.js_ts {
        seq![
            entry_spec("knip"@, "adapter"@, KNIP_REASON@, Some(KNIP_INSTALL@), false, probe_of(tools, "knip"@)),
            entry_spec("dependency-cruiser"@, "adapter"@, depcruiser_reason(opt_view(facts.depcruiser_config)), Some(DEPCRUISER_INSTALL@), false, probe_of(tools, "dependency-cruiser"@)),
        ]
    } else {
        seq![]
    };
    let a2 = if facts.docs_dir || markdown_heavy(report.languages@) {
        a1 + seq![entry_spec("lychee"@, "adapter"@, LYCHEE_REASON@, Some("cargo install lychee"@), false, probe_of(tools, "lychee"@))]
    } else {
        a1
    };
    if facts.workflows {
        a2 + seq![entry_spec("zizmor"@, "adapter"@, ZIZMOR_REASON@, Some("cargo install zizmor"@), false, probe_of(tools, "zizmor"@))]
    } else {
        a2
    }
}

/// The tools an entry list names, in order.
pub open spec fn entry_tools(entries: Seq<EntryView>) -> Seq<Seq<char>> {
    entries.map_values(|e: EntryView| e.0)
}

/// The third plan section is Recommended: tgrep and rtk always, then
/// codebase-memory-mcp and codegraph exactly when the repository is large
/// or has four or more workspaces, whatever its profile otherwise.
pub proof fn lemma_graph_backends_recommended(report: ScanReport, cfg: Option<RepoConfig>, tools: Seq<ToolInfo>, facts: PlanFacts)
    ensures
        plan_spec(report, cfg, tools, facts)[2].0 == "Recommended"@,
        report.complexity.workspaces >= 4 || report.complexity.profile@ == "large"@ ==> entry_tools(plan_spec(report, cfg, tools, facts)[2].1)
            == seq!["tgrep"@, "rtk"@, "codebase-memory-mcp"@, "codegraph"@],
        !(report.complexity.workspaces >= 4 || report.complexity.profile@ == "large"@) ==> entry_tools(plan_spec(report, cfg, tools, facts)[2].1)
            == seq!["tgrep"@, "rtk"@],
{
    let rec = plan_spec(report, cfg, tools, facts)[2].1;
    assert(rec == plan_recommended(report, cfg, tools));
    assert(entry_tools(rec) =~= rec.map_values(|e: EntryView| e.0));
    if report.complexity.workspaces >= 4 || report.complexity.profile@ == "large"@ {
        assert(entry_tools(rec) =~= seq!["tgrep"@, "rtk"@, "codebase-memory-mcp"@, "codegraph"@]);
    } else {
        assert(entry_tools(rec) =~= seq!["tgrep"@, "rtk"@]);
    }
}

pub const AST_GREP_INSTALL: &'static str = "npm i -g @ast-grep/cli | cargo install ast-grep --locked | brew install ast-grep";
pub const TGREP_INSTALL: &'static str = "brew install tgrep (verified: Microsoft tgrep 1.x with trigram index + serve)";
pub const RTK_REASON: &'static str = "shell output compression for Pi sessions (verify with `rtk gain`)";
pub const RTK_INSTALL: &'static str = "install Rust Token Killer from rtk-ai/rtk, then `rtk init -g --agent pi`";
pub const CBM_REASON: &'static str = "large multi-package repo: preferred graph backend for callers/callees and blast radius";
pub const CODEGRAPH_REASON: &'static str = "large multi-package repo: callers/callees and blast radius without broad reads (graph fallback)";
pub const CODEGRAPH_INSTALL: &'static str = "download the official engine binary + checksum for your platform";
pub const KNIP_REASON: &'static str = "JS/TS detected: unused files, dependencies and exports (project-local, evidence only)";
pub const KNIP_INSTALL: &'static str = "npm install --save-dev knip (never global by default)";
pub const DEPCRUISER_INSTALL: &'static str = "npm install --save-dev dependency-cruiser (never global by default)";
pub const LYCHEE_REASON: &'static str = "docs-heavy repo: broken relative links and anchors (offline checks first)";
pub const ZIZMOR_REASON: &'static str = ".github/workflows detected: static/security analysis of Actions";

fn is_off(cfg: Option<&RepoConfig>, tool: &str) -> (r: bool)
    ensures
        r == mode_off(match cfg { Some(c) => Some(*c), None => None }, tool@),
{
    match cfg {
        Some(c) => same_str(tool_mode(c, tool).as_str(), "off"),
        None => false,
    }
}

fn section(title: &str, entries: Vec<PlanEntry>) -> (r: PlanSection)
    ensures
        r.title@ == title@,
        r.entries@ == entries@,
{
    PlanSection { title: string_from(title), entries }
}

fn depcruiser_reason_exec(config: &Option<String>) -> (r: String)
    ensures
        r@ == depcruiser_reason(opt_view(*config)),
{
    match config {
        Some(c) => {
            let mut s = string_from("boundaries configured (");
            crate::text::push_str(&mut s, c.as_str());
            crate::text::push_str(&mut s, "): module/layer rules as evidence (project-local, never auto-fix)");
            s
        },
        None => string_from("JS/TS without boundaries config: formalize only if worth it (project-local, never auto-fix)"),
    }
}

fn recommended_entries(report: &ScanReport, cfg: Option<&RepoConfig>, tools: &Vec<ToolInfo>) -> (r: Vec<PlanEntry>)
    ensures
        r@.map_values(|e: PlanEntry| entry_view(e)) == plan_recommended(*report, match cfg { Some(c) => Some(*c), None => None }, tools@),
{
    let profile = report.complexity.profile.as_str();
    let medium_or_large = same_str(profile, "medium") || same_str(profile, "large");
    let large = same_str(profile, "large");
    let mut recommended: Vec<PlanEntry> = Vec::new();
    recommended.push(entry(
        "tgrep",
        "recommended",
        if medium_or_large { "medium/large repository: indexed text search" } else { "small repository: optional, rg/git-grep suffice" },
        Some(TGREP_INSTALL),
        is_off(cfg, "tgrep"),
        tools,
    ));
    recommended.push(entry("rtk", "recommended", RTK_REASON, Some(RTK_INSTALL), is_off(cfg, "rtk"), tools));
    if large || report.complexity.workspaces >= 4 {
        recommended.push(entry("codebase-memory-mcp", "recommended", CBM_REASON, Some(CODEBASE_MEMORY_INSTALL), is_off(cfg, "codebase-memory-mcp"), tools));
        recommended.push(entry("codegraph", "recommended", CODEGRAPH_REASON, Some(CODEGRAPH_INSTALL), is_off(cfg, "codegraph"), tools));
    }
    assert(recommended@.map_values(|e: PlanEntry| entry_view(e)) =~= plan_recommended(*report, match cfg { Some(c) => Some(*c), None => None }, tools@));
    recommended
}

fn adapter_entries(report: &ScanReport, tools: &Vec<ToolInfo>, facts: &PlanFacts) -> (r: Vec<PlanEntry>)
    ensures
        r@.map_values(|e: PlanEntry| entry_view(e)) == plan_adapters(*report, tools@, *facts),
{
    let mut adapters: Vec<PlanEntry> = Vec::new();
    if facts.js_ts {
        adapters.push(entry("knip", "adapter", KNIP_REASON, Some(KNIP_INSTALL), false, tools));
        let reason = depcruiser_reason_exec(&facts.depcruiser_config);
        adapters.push(entry("dependency-cruiser", "adapter", reason.as_str(), Some(DEPCRUISER_INSTALL), false, tools));
    }
    let heavy = facts.docs_dir || markdown_heavy_exec(&report.languages);
    if heavy {
        adapters.push(entry("lychee", "adapter", LYCHEE_REASON, Some("cargo install lychee"), false, tools));
    }
    if facts.workflows {
        adapters.push(entry("zizmor", "adapter", ZIZMOR_REASON, Some("cargo install zizmor"), false, tools));
    }
    assert(adapters@.map_values(|e: PlanEntry| entry_view(e)) =~= plan_adapters(*report, tools@, *facts));
    adapters
}

/// Builds the plan (see [`plan_spec`]).
pub fn build_plan(report: &ScanReport, cfg: Option<&RepoConfig>, tools: &Vec<ToolInfo>, facts: &PlanFacts) -> (r: Vec<PlanSection>)
    ensures
        r@.map_values(|s: PlanSection| section_view(s)) == plan_spec(*report, match cfg { Some(c) => Some(*c), None => None }, tools@, *facts),
{
    let required = vec![entry("git", "required", "Git is the source of truth for root/HEAD/tracked files", None, false, tools)];
    assert(required@.map_values(|e: PlanEntry| entry_view(e)) =~= plan_required(tools@));
    let core = vec![entry("ast-grep", "core", "structural search, lint rules and explicit rewrites", Some(AST_GREP_INSTALL), false, tools)];
    assert(core@.map_values(|e: PlanEntry| entry_view(e)) =~= plan_core(tools@));
    let recommended = recommended_entries(report, cfg, tools);
    let adapters = adapter_entries(report, tools, facts);
    let r = vec![
        section("Required", required),
        section("Core", core),
        section("Recommended", recommended),
        section("Project adapters", adapters),
    ];
    assert(r@.map_values(|s: PlanSection| section_view(s)) =~= plan_spec(*report, match cfg { Some(c) => Some(*c), None => None }, tools@, *facts));
    r
}


/// `name` was probed and found.
pub open spec fn available_in(tools: Seq<ToolInfo>, name: Seq<char>) -> bool {
    probe_of(tools, name) matches Some(t) && t.available
}

fn available_exec(tools: &Vec<ToolInfo>, name: &str) -> (r: bool)
    ensures
        r == available_in(tools@, name@),
{
    match find_probe(tools, name) {
        Some(t) => t.available,
        None => false,
    }
}

/// The search backends `status` reports: text, structural and graph.
pub fn search_backend_labels(tools: &Vec<ToolInfo>) -> (r: (&'static str, &'static str, &'static str))
    ensures
        r.0@ == if available_in(tools@, "tgrep"@) { "tgrep ✓"@ } else { "rg/git-grep fallback"@ },
        r.1@ == if available_in(tools@, "ast-grep"@) { "ast-grep ✓"@ } else { "unavailable (reduced capability)"@ },
        r.2@ == if available_in(tools@, "codebase-memory-mcp"@) {
            "codebase-memory-mcp ✓"@
        } else if available_in(tools@, "codegraph"@) {
            "codegraph ✓"@
        } else {
            "degraded to text"@
        },
{
    let text = if available_exec(tools, "tgrep") { "tgrep ✓" } else { "rg/git-grep fallback" };
    let structural = if available_exec(tools, "ast-grep") { "ast-grep ✓" } else { "unavailable (reduced capability)" };
    let graph = if available_exec(tools, "codebase-memory-mcp") {
        "codebase-memory-mcp ✓"
    } else if available_exec(tools, "codegraph") {
        "codegraph ✓"
    } else {
        "degraded to text"
    };
    (text, structural, graph)
}

} // verus!
