use vstd::prelude::*;

use crate::config::{join_path, join_path_exec};
use crate::output::AiError;
use crate::text::{push_str, same_str, string_from};
use crate::tools::{PlanSection, PlanEntry};

verus! {

pub const REGISTRY_FILE: &'static str = "managed-tools.json";
pub const BIN_DIR: &'static str = "bin";
pub const INSTALL_SCHEMA: &'static str = "aicontext/tools-install/v1";

/// Adapters that are safe global installs via cargo.
pub const GLOBAL_ADAPTERS: [&'static str; 2] = ["lychee", "zizmor"];

/// One tool recorded in the ownership registry.
#[derive(Debug, Clone)]
pub struct ManagedTool {
    pub name: String,
    pub version: String,
    pub method: String,
    pub path: String,
    pub installed_at: u64,
    pub managed_by: String,
}

/// The ownership registry (`managed-tools.json`).
#[derive(Debug, Clone)]
pub struct Registry {
    pub tools: Vec<ManagedTool>,
}

impl Default for Registry {
    fn default() -> (r: Self)
        ensures
            r.tools@.len() == 0,
    {
        Registry { tools: Vec::new() }
    }
}

/// The registry file inside the managed prefix.
pub fn registry_path(prefix: &str) -> (r: String)
    ensures
        r@ == join_path(prefix@, REGISTRY_FILE@),
{
    join_path_exec(prefix, REGISTRY_FILE)
}

/// How a tool can be installed.
#[derive(Debug, Clone, Copy)]
pub enum Method {
    Cargo { package: &'static str, binary: &'static str },
    Manual { instructions: &'static str },
    ProjectLocal { note: &'static str },
}

pub const TGREP_MANUAL: &'static str = "brew install tgrep, or build from the official source (cargo install --path tgrep-cli --locked); verify against published checksums";
pub const RTK_MANUAL: &'static str = "install Rust Token Killer from rtk-ai/rtk, verify with `rtk gain`, then enable with `rtk init -g --agent pi`";
pub const CODEGRAPH_MANUAL: &'static str = "download the official engine binary + checksum for your platform into the managed prefix";
pub const PROJECT_LOCAL_NOTE: &'static str = "project-local adapter: add as a devDependency in the repo; AIContext never touches manifests";

/// The kind of a method and its strings, as plain values.
pub open spec fn method_view(m: Method) -> (nat, Seq<char>, Seq<char>) {
    match m {
        Method::Cargo { package, binary } => (0, package@, binary@),
        Method::Manual { instructions } => (1, instructions@, seq![]),
        Method::ProjectLocal { note } => (2, note@, seq![]),
    }
}

/// The install method table: cargo for ast-grep, lychee and zizmor; manual
/// steps for tgrep, rtk and codegraph; project-local for knip and
/// dependency-cruiser; nothing for any other name.
pub open spec fn method_spec(tool: Seq<char>) -> Option<(nat, Seq<char>, Seq<char>)> {
    if tool == "ast-grep"@ {
        Some((0, "ast-grep"@, "ast-grep"@))
    } else if tool == "lychee"@ {
        Some((0, "lychee"@, "lychee"@))
    } else if tool == "zizmor"@ {
        Some((0, "zizmor"@, "zizmor"@))
    } else if tool == "tgrep"@ {
        Some((1, TGREP_MANUAL@, seq![]))
    } else if tool == "rtk"@ {
        Some((1, RTK_MANUAL@, seq![]))
    } else if tool == "codegraph"@ {
        Some((1, CODEGRAPH_MANUAL@, seq![]))
    } else if tool == "knip"@ || tool == "dependency-cruiser"@ {
        Some((2, PROJECT_LOCAL_NOTE@, seq![]))
    } else {
        None
    }
}

pub open spec fn opt_method_view(m: Option<Method>) -> Option<(nat, Seq<char>, Seq<char>)> {
    match m {
        Some(x) => Some(method_view(x)),
        None => None,
    }
}

pub fn method_for(tool: &str) -> (r: Option<Method>)
    ensures
        opt_method_view(r) == method_spec(tool@),
{
    if same_str(tool, "ast-grep") {
        Some(Method::Cargo { package: "ast-grep", binary: "ast-grep" })
    } else if same_str(tool, "lychee") {
        Some(Method::Cargo { package: "lychee", binary: "lychee" })
    } else if same_str(tool, "zizmor") {
        Some(Method::Cargo { package: "zizmor", binary: "zizmor" })
    } else if same_str(tool, "tgrep") {
        Some(Method::Manual { instructions: TGREP_MANUAL })
    } else if same_str(tool, "rtk") {
        Some(Method::Manual { instructions: RTK_MANUAL })
    } else if same_str(tool, "codegraph") {
        Some(Method::Manual { instructions: CODEGRAPH_MANUAL })
    } else if same_str(tool, "knip") || same_str(tool, "dependency-cruiser") {
        Some(Method::ProjectLocal { note: PROJECT_LOCAL_NOTE })
    } else {
        None
    }
}

pub open spec fn is_global_adapter(tool: Seq<char>) -> bool {
    tool == "lychee"@ || tool == "zizmor"@
}

/// Whether a tool may be installed globally as an adapter.
pub fn is_global_adapter_exec(tool: &str) -> (r: bool)
    ensures
        r == is_global_adapter(tool@),
{
    same_str(tool, GLOBAL_ADAPTERS[0]) || same_str(tool, GLOBAL_ADAPTERS[1])
}

/// The tools of one plan section that `--recommended` asks for: missing
/// Recommended entries, and missing adapters that are safe global installs.
pub open spec fn section_targets(title: Seq<char>, entries: Seq<PlanEntry>) -> Seq<Seq<char>>
    decreases entries.len(),
{
    if entries.len() == 0 {
        seq![]
    } else {
        let e = entries.last();
        let rest = section_targets(title, entries.drop_last());
        if e.state@ == "missing"@ && (title == "Recommended"@ || (title == "Project adapters"@ && is_global_adapter(e.tool@))) {
            rest.push(e.tool@)
        } else {
            rest
        }
    }
}

pub open spec fn plan_targets(plan: Seq<PlanSection>) -> Seq<Seq<char>>
    decreases plan.len(),
{
    if plan.len() == 0 {
        seq![]
    } else {
        plan_targets(plan.drop_last()) + section_targets(plan.last().title@, plan.last().entries@)
    }
}

fn section_targets_exec(out: &mut Vec<String>, section: &PlanSection)
    ensures
        final(out).deep_view() == old(out).deep_view() + section_targets(section.title@, section.entries@),
{
    let recommended = same_str(section.title.as_str(), "Recommended");
    let adapters = same_str(section.title.as_str(), "Project adapters");
    let mut i: usize = 0;
    let ghost start = out.deep_view();
    assert(section.entries@.take(0) =~= seq![]);
    while i < section.entries.len()
        invariant
            i <= section.entries.len(),
            recommended == (section.title@ == "Recommended"@),
            adapters == (section.title@ == "Project adapters"@),
            out.deep_view() == start + section_targets(section.title@, section.entries@.take(i as int)),
        decreases section.entries.len() - i,
    {
        let e = &section.entries[i];
        assert(section.entries@.take(i + 1).drop_last() =~= section.entries@.take(i as int));
        assert(section.entries@.take(i + 1).last() == *e);
        let ghost before = out.deep_view();
        if same_str(e.state.as_str(), "missing") && (recommended || (adapters && is_global_adapter_exec(e.tool.as_str()))) {
            let tool = e.tool.clone();
            out.push(tool);
            assert(out.deep_view() =~= before.push(e.tool@));
        }
        i += 1;
    }
    assert(section.entries@.take(i as int) =~= section.entries@);
}

/// Tools requested by `--recommended`: missing Recommended entries plus
/// missing global-candidate adapters, in plan order. Project-local adapters
/// are never installed.
pub fn recommended_targets(plan: &Vec<PlanSection>) -> (r: Vec<String>)
    ensures
        r.deep_view() == plan_targets(plan@),
{
    let mut out: Vec<String> = Vec::new();
    let mut i: usize = 0;
    assert(plan@.take(0) =~= seq![]);
    assert(out.deep_view() =~= seq![]);
    while i < plan.len()
        invariant
            i <= plan.len(),
            out.deep_view() == plan_targets(plan@.take(i as int)),
        decreases plan.len() - i,
    {
        assert(plan@.take(i + 1).drop_last() =~= plan@.take(i as int));
        section_targets_exec(&mut out, &plan[i]);
        i += 1;
    }
    assert(plan@.take(i as int) =~= plan@);
    out
}

/// The tools `tools install` works on: the named one, or the recommended
/// targets; without either it is a usage error.
pub fn requested_tools(tool: Option<String>, recommended: bool, targets: Vec<String>) -> (r: Result<Vec<String>, AiError>)
    ensures
        match tool {
            Some(t) => r matches Ok(v) && v.deep_view() == seq![t@],
            None => if recommended {
                r matches Ok(v) && v.deep_view() == targets.deep_view()
            } else {
                r matches Err(e) && e->Check_code@ == "INVALID_USAGE"@
                    && e->Check_message@ == "specify a tool or pass --recommended (see `aicontext tools plan`)"@
                    && e->Check_remediation is None
            },
        },
{
    match tool {
        Some(t) => {
            let v = vec![t];
            assert(v.deep_view() =~= seq![v@[0]@]);
            Ok(v)
        },
        None => {
            if recommended {
                Ok(targets)
            } else {
                Err(AiError::new("INVALID_USAGE", string_from("specify a tool or pass --recommended (see `aicontext tools plan`)"), None))
            }
        },
    }
}

pub open spec fn unknown_tool_message(name: Seq<char>) -> Seq<char> {
    "unknown tool '"@ + name + "' (see `aicontext tools plan`)"@
}

/// The first requested tool without an install method, as an error.
pub fn first_unknown(requested: &Vec<String>) -> (r: Option<AiError>)
    ensures
        match r {
            None => forall|k: int| 0 <= k < requested@.len() ==> method_spec(#[trigger] requested@[k]@) is Some,
            Some(e) => exists|k: int| 0 <= k < requested@.len() && method_spec(#[trigger] requested@[k]@) is None
                && (forall|j: int| 0 <= j < k ==> method_spec(#[trigger] requested@[j]@) is Some)
                && e->Check_code@ == "UNKNOWN_TOOL"@ && e->Check_message@ == unknown_tool_message(requested@[k]@)
                && e->Check_remediation is None,
        },
{
    let mut i: usize = 0;
    while i < requested.len()
        invariant
            i <= requested.len(),
            forall|k: int| 0 <= k < i ==> method_spec(#[trigger] requested@[k]@) is Some,
        decreases requested.len() - i,
    {
        if method_for(requested[i].as_str()).is_none() {
            let mut m = string_from("unknown tool '");
            push_str(&mut m, requested[i].as_str());
            push_str(&mut m, "' (see `aicontext tools plan`)");
            let e = AiError::new("UNKNOWN_TOOL", m, None);
            assert(method_spec(requested@[i as int]@) is None);
            return Some(e);
        }
        i += 1;
    }
    None
}

/// A tool that `tools install` can install with cargo.
#[derive(Debug, Clone)]
pub struct CargoTarget {
    pub name: String,
    pub package: &'static str,
    pub binary: &'static str,
}

/// A requested tool that was not installed, and why.
#[derive(Debug, Clone)]
pub struct Skipped {
    pub tool: String,
    pub reason: String,
}

/// A tool that was installed, its version and where.
#[derive(Debug, Clone)]
pub struct Installed {
    pub tool: String,
    pub version: String,
    pub path: String,
}

/// Requested tools sorted by what `tools install` will do with them.
pub struct InstallSplit {
    pub already_present: Vec<String>,
    pub installable: Vec<CargoTarget>,
    pub skipped: Vec<Skipped>,
}

pub open spec fn manual_reason(instructions: Seq<char>) -> Seq<char> {
    "no safe managed install; manual steps: "@ + instructions
}

/// Where one requested tool goes: 0 already present, 1 installable with
/// cargo (package, binary), 2 skipped (reason).
pub open spec fn disposition(name: Seq<char>, present: bool) -> (nat, Seq<char>, Seq<char>) {
    if present {
        (0, seq![], seq![])
    } else {
        match method_spec(name) {
            Some(m) => if m.0 == 0 {
                (1, m.1, m.2)
            } else if m.0 == 1 {
                (2, manual_reason(m.1), seq![])
            } else {
                (2, m.1, seq![])
            },
            None => (2, "unknown tool"@, seq![]),
        }
    }
}

pub open spec fn split_present(names: Seq<Seq<char>>, present: Seq<bool>) -> Seq<Seq<char>>
    decreases names.len(),
{
    if names.len() == 0 {
        seq![]
    } else {
        let rest = split_present(names.drop_last(), present);
        if disposition(names.last(), present[names.len() - 1]).0 == 0 { rest.push(names.last()) } else { rest }
    }
}

pub open spec fn split_installable(names: Seq<Seq<char>>, present: Seq<bool>) -> Seq<(Seq<char>, Seq<char>, Seq<char>)>
    decreases names.len(),
{
    if names.len() == 0 {
        seq![]
    } else {
        let rest = split_installable(names.drop_last(), present);
        let d = disposition(names.last(), present[names.len() - 1]);
        if d.0 == 1 { rest.push((names.last(), d.1, d.2)) } else { rest }
    }
}

pub open spec fn split_skipped(names: Seq<Seq<char>>, present: Seq<bool>) -> Seq<(Seq<char>, Seq<char>)>
    decreases names.len(),
{
    if names.len() == 0 {
        seq![]
    } else {
        let rest = split_skipped(names.drop_last(), present);
        let d = disposition(names.last(), present[names.len() - 1]);
        if d.0 == 2 { rest.push((names.last(), d.1)) } else { rest }
    }
}

pub open spec fn target_view(t: CargoTarget) -> (Seq<char>, Seq<char>, Seq<char>) {
    (t.name@, t.package@, t.binary@)
}

pub open spec fn skipped_view(s: Skipped) -> (Seq<char>, Seq<char>) {
    (s.tool@, s.reason@)
}

/// Sorts the requested tools (`present[i]`: tool `i` is already on the
/// machine) into already present, installable with cargo, and skipped with
/// a reason; each list keeps the request order.
pub fn split_requested(requested: &Vec<String>, present: &Vec<bool>) -> (r: InstallSplit)
    requires
        present.len() == requested.len(),
    ensures
        r.already_present.deep_view() == split_present(requested.deep_view(), present@),
        r.installable@.map_values(|t: CargoTarget| target_view(t)) == split_installable(requested.deep_view(), present@),
        r.skipped@.map_values(|s: Skipped| skipped_view(s)) == split_skipped(requested.deep_view(), present@),
{
    let mut already_present: Vec<String> = Vec::new();
    let mut installable: Vec<CargoTarget> = Vec::new();
    let mut skipped: Vec<Skipped> = Vec::new();
    let ghost names = requested.deep_view();
    let mut i: usize = 0;
    assert(names.take(0) =~= seq![]);
    assert(already_present.deep_view() =~= seq![]);
    assert(installable@.map_values(|t: CargoTarget| target_view(t)) =~= seq![]);
    assert(skipped@.map_values(|s: Skipped| skipped_view(s)) =~= seq![]);
    while i < requested.len()
        invariant
            i <= requested.len(),
            present.len() == requested.len(),
            names == requested.deep_view(),
            already_present.deep_view() == split_present(names.take(i as int), present@),
            installable@.map_values(|t: CargoTarget| target_view(t)) == split_installable(names.take(i as int), present@),
            skipped@.map_values(|s: Skipped| skipped_view(s)) == split_skipped(names.take(i as int), present@),
        decreases requested.len() - i,
    {
        let name = &requested[i];
        let ghost pre = names.take(i as int);
        let ghost cur = names.take(i + 1);
        assert(cur.drop_last() =~= pre);
        assert(cur.last() == name@);
        assert(cur.len() - 1 == i);
        let ghost ap = already_present.deep_view();
        let ghost ins = installable@.map_values(|t: CargoTarget| target_view(t));
        let ghost sk = skipped@.map_values(|s: Skipped| skipped_view(s));
        if present[i] {
            already_present.push(name.clone());
            assert(already_present.deep_view() =~= ap.push(name@));
        } else {
            match method_for(name.as_str()) {
                Some(Method::Cargo { package, binary }) => {
                    installable.push(CargoTarget { name: name.clone(), package, binary });
                    assert(installable@.map_values(|t: CargoTarget| target_view(t)) =~= ins.push((name@, package@, binary@)));
                },
                Some(Method::Manual { instructions }) => {
                    let mut reason = string_from("no safe managed install; manual steps: ");
                    push_str(&mut reason, instructions);
                    skipped.push(Skipped { tool: name.clone(), reason });
                    assert(skipped@.map_values(|s: Skipped| skipped_view(s)) =~= sk.push((name@, manual_reason(instructions@))));
                },
                Some(Method::ProjectLocal { note }) => {
                    skipped.push(Skipped { tool: name.clone(), reason: string_from(note) });
                    assert(skipped@.map_values(|s: Skipped| skipped_view(s)) =~= sk.push((name@, note@)));
                },
                None => {
                    skipped.push(Skipped { tool: name.clone(), reason: string_from("unknown tool") });
                    assert(skipped@.map_values(|s: Skipped| skipped_view(s)) =~= sk.push((name@, "unknown tool"@)));
                },
            }
        }
        i += 1;
    }
    assert(names.take(i as int) =~= names);
    InstallSplit { already_present, installable, skipped }
}

/// Only the cargo-installable tools (ast-grep, lychee, zizmor) are ever
/// installed: project-local adapters and manual-only tools never are,
/// whatever is requested.
pub proof fn lemma_only_cargo_tools_installed(names: Seq<Seq<char>>, present: Seq<bool>)
    ensures
        forall|k: int| 0 <= k < split_installable(names, present).len() ==> {
            let n = (#[trigger] split_installable(names, present)[k]).0;
            n == "ast-grep"@ || n == "lychee"@ || n == "zizmor"@
        },
    decreases names.len(),
{
    if names.len() > 0 {
        lemma_only_cargo_tools_installed(names.drop_last(), present);
        let rest = split_installable(names.drop_last(), present);
        let all = split_installable(names, present);
        let d = disposition(names.last(), present[names.len() - 1]);
        assert forall|k: int| 0 <= k < all.len() implies {
            let n = (#[trigger] all[k]).0;
            n == "ast-grep"@ || n == "lychee"@ || n == "zizmor"@
        } by {
            if d.0 == 1 {
                if k < rest.len() {
                    assert(all[k] == rest[k]);
                } else {
                    assert(all[k].0 == names.last());
                }
            } else {
                assert(all[k] == rest[k]);
            }
        }
    }
}

/// A tool already on the machine is never installed again.
pub proof fn lemma_present_tools_not_installed(names: Seq<Seq<char>>, present: Seq<bool>, i: int)
    requires
        0 <= i < names.len(),
        i < present.len(),
        present[i],
    ensures
        split_present(names, present).contains(names[i]),
    decreases names.len(),
{
    if i < names.len() - 1 {
        lemma_present_tools_not_installed(names.drop_last(), present, i);
        let rest = split_present(names.drop_last(), present);
        let j = choose|j: int| 0 <= j < rest.len() && rest[j] == names[i];
        if disposition(names.last(), present[names.len() - 1]).0 == 0 {
            assert(split_present(names, present)[j] == names[i]);
        }
    } else {
        assert(names.drop_last().len() == i);
        let rest = split_present(names.drop_last(), present);
        assert(split_present(names, present) == rest.push(names.last()));
        assert(split_present(names, present)[rest.len() as int] == names[i]);
    }
}

/// The tools `--recommended` may ask for.
pub open spec fn recommendable(t: Seq<char>) -> bool {
    t == "tgrep"@ || t == "rtk"@ || t == "codebase-memory-mcp"@ || t == "codegraph"@ || is_global_adapter(t)
}

proof fn lemma_section_targets_recommendable(title: Seq<char>, entries: Seq<PlanEntry>)
    requires
        title == "Recommended"@ ==> forall|j: int| 0 <= j < entries.len() ==> recommendable(#[trigger] entries[j].tool@),
    ensures
        forall|k: int| 0 <= k < section_targets(title, entries).len() ==> recommendable(#[trigger] section_targets(title, entries)[k]),
    decreases entries.len(),
{
    if entries.len() > 0 {
        let rest = entries.drop_last();
        assert forall|j: int| 0 <= j < rest.len() && title == "Recommended"@ implies recommendable(#[trigger] rest[j].tool@) by {
            assert(rest[j] == entries[j]);
        }
        lemma_section_targets_recommendable(title, rest);
        let prev = section_targets(title, rest);
        let all = section_targets(title, entries);
        let e = entries.last();
        if title == "Recommended"@ {
            assert(recommendable(entries[entries.len() - 1].tool@));
        }
        assert forall|k: int| 0 <= k < all.len() implies recommendable(#[trigger] all[k]) by {
            if k < prev.len() {
                assert(all[k] == prev[k]);
            } else {
                assert(all[k] == e.tool@);
            }
        }
    }
}

proof fn lemma_recommended_section_tools(report: crate::scan::ScanReport, cfg: Option<crate::config::RepoConfig>, tools: Seq<crate::tools::ToolInfo>)
    ensures
        forall|q: int| 0 <= q < crate::tools::plan_recommended(report, cfg, tools).len()
            ==> recommendable(#[trigger] crate::tools::plan_recommended(report, cfg, tools)[q].0),
{
    let pr = crate::tools::plan_recommended(report, cfg, tools);
    assert forall|q: int| 0 <= q < pr.len() implies recommendable(#[trigger] pr[q].0) by {
        if q == 0 {
            assert(pr[q].0 == "tgrep"@);
        } else if q == 1 {
            assert(pr[q].0 == "rtk"@);
        } else if q == 2 {
            assert(pr[q].0 == "codebase-memory-mcp"@);
        } else {
            assert(pr[q].0 == "codegraph"@);
        }
    }
}

proof fn lemma_plan_targets_recommendable(plan: Seq<PlanSection>)
    requires
        forall|i: int, j: int| 0 <= i < plan.len() && plan[i].title@ == "Recommended"@ && 0 <= j < plan[i].entries@.len()
            ==> recommendable(#[trigger] plan[i].entries@[j].tool@),
    ensures
        forall|k: int| 0 <= k < plan_targets(plan).len() ==> recommendable(#[trigger] plan_targets(plan)[k]),
    decreases plan.len(),
{
    if plan.len() > 0 {
        let init = plan.drop_last();
        assert forall|i: int, j: int| 0 <= i < init.len() && init[i].title@ == "Recommended"@ && 0 <= j < init[i].entries@.len()
            implies recommendable(#[trigger] init[i].entries@[j].tool@) by {
            assert(init[i] == plan[i]);
        }
        lemma_plan_targets_recommendable(init);
        let last = plan.last();
        assert forall|j: int| 0 <= j < last.entries@.len() && last.title@ == "Recommended"@
            implies recommendable(#[trigger] last.entries@[j].tool@) by {
            assert(plan[plan.len() - 1] == last);
        }
        lemma_section_targets_recommendable(last.title@, last.entries@);
        let a = plan_targets(init);
        let b = section_targets(last.title@, last.entries@);
        assert forall|k: int| 0 <= k < (a + b).len() implies recommendable(#[trigger] (a + b)[k]) by {
            if k < a.len() {
                assert((a + b)[k] == a[k]);
            } else {
                assert((a + b)[k] == b[k - a.len()]);
            }
        }
    }
}

/// `tools install --recommended` on a built plan never asks for a
/// project-local adapter (knip, dependency-cruiser): only tgrep, rtk, the
/// graph backends and the global adapters (lychee, zizmor).
pub proof fn lemma_recommended_never_project_local(
    report: crate::scan::ScanReport,
    cfg: Option<crate::config::RepoConfig>,
    tools: Seq<crate::tools::ToolInfo>,
    facts: crate::tools::PlanFacts,
    plan: Seq<PlanSection>,
)
    requires
        plan.map_values(|s: PlanSection| crate::tools::section_view(s)) == crate::tools::plan_spec(report, cfg, tools, facts),
    ensures
        forall|k: int| 0 <= k < plan_targets(plan).len() ==> recommendable(#[trigger] plan_targets(plan)[k])
            && plan_targets(plan)[k] != "knip"@ && plan_targets(plan)[k] != "dependency-cruiser"@,
{
    let views = plan.map_values(|s: PlanSection| crate::tools::section_view(s));
    assert(plan.len() == 4) by {
        assert(views.len() == 4);
    }
    reveal_strlit("Required");
    reveal_strlit("Core");
    reveal_strlit("Recommended");
    reveal_strlit("Project adapters");
    reveal_strlit("tgrep");
    reveal_strlit("rtk");
    reveal_strlit("codebase-memory-mcp");
    reveal_strlit("codegraph");
    reveal_strlit("lychee");
    reveal_strlit("zizmor");
    reveal_strlit("knip");
    reveal_strlit("dependency-cruiser");
    assert forall|i: int, j: int| 0 <= i < plan.len() && plan[i].title@ == "Recommended"@ && 0 <= j < plan[i].entries@.len()
        implies recommendable(#[trigger] plan[i].entries@[j].tool@) by {
        assert(views[i] == crate::tools::section_view(plan[i]));
        assert(views[0].0 == "Required"@);
        assert(views[1].0 == "Core"@);
        assert(views[3].0 == "Project adapters"@);
        assert("Required"@[2] != "Recommended"@[2]);
        assert("Core"@[0] != "Recommended"@[0]);
        assert("Project adapters"@[0] != "Recommended"@[0]);
        assert(i == 2);
        let ev = plan[i].entries@.map_values(|e: PlanEntry| crate::tools::entry_view(e));
        assert(ev == crate::tools::plan_recommended(report, cfg, tools));
        assert(ev[j] == crate::tools::entry_view(plan[i].entries@[j]));
        lemma_recommended_section_tools(report, cfg, tools);
        assert(recommendable(ev[j].0));
    }
    lemma_plan_targets_recommendable(plan);
    assert forall|k: int| 0 <= k < plan_targets(plan).len() implies plan_targets(plan)[k] != "knip"@
        && plan_targets(plan)[k] != "dependency-cruiser"@ by {
        let t = plan_targets(plan)[k];
        assert(recommendable(t));
        assert("knip"@.len() == 4);
        assert("dependency-cruiser"@.len() == 18);
        if t == "knip"@ {
            assert(t[0] == 'k');
        }
        if t == "dependency-cruiser"@ {
            assert(t[0] == 'd');
        }
    }
}

pub open spec fn plan_line(t: (Seq<char>, Seq<char>, Seq<char>)) -> Seq<char> {
    t.0 + " via cargo install "@ + t.1 + " --locked"@
}

/// The confirmation lines: `{name} via cargo install {package} --locked`.
pub fn plan_lines(installable: &Vec<CargoTarget>) -> (r: Vec<String>)
    ensures
        r.deep_view() == installable@.map_values(|t: CargoTarget| plan_line(target_view(t))),
{
    let mut out: Vec<String> = Vec::new();
    let mut i: usize = 0;
    while i < installable.len()
        invariant
            i <= installable.len(),
            out.deep_view() == installable@.take(i as int).map_values(|t: CargoTarget| plan_line(target_view(t))),
        decreases installable.len() - i,
    {
        let mut line = installable[i].name.clone();
        push_str(&mut line, " via cargo install ");
        push_str(&mut line, installable[i].package);
        push_str(&mut line, " --locked");
        out.push(line);
        assert(installable@.take(i + 1).map_values(|t: CargoTarget| plan_line(target_view(t))) =~= installable@.take(i as int).map_values(|t: CargoTarget| plan_line(target_view(t))).push(plan_line(target_view(installable@[i as int]))));
        i += 1;
    }
    assert(installable@.take(i as int) =~= installable@);
    out
}

/// `registry` without the entries named `name`, order kept.
pub open spec fn without_tool(tools: Seq<ManagedTool>, name: Seq<char>) -> Seq<ManagedTool>
    decreases tools.len(),
{
    if tools.len() == 0 {
        seq![]
    } else {
        let rest = without_tool(tools.drop_last(), name);
        if tools.last().name@ != name { rest.push(tools.last()) } else { rest }
    }
}

proof fn lemma_without_tool(tools: Seq<ManagedTool>, name: Seq<char>)
    ensures
        forall|k: int| 0 <= k < without_tool(tools, name).len() ==> (#[trigger] without_tool(tools, name)[k]).name@ != name,
        forall|t: ManagedTool| tools.contains(t) && t.name@ != name ==> without_tool(tools, name).contains(t),
    decreases tools.len(),
{
    if tools.len() > 0 {
        lemma_without_tool(tools.drop_last(), name);
        let rest = without_tool(tools.drop_last(), name);
        assert forall|t: ManagedTool| tools.contains(t) && t.name@ != name implies without_tool(tools, name).contains(t) by {
            let k = choose|k: int| 0 <= k < tools.len() && tools[k] == t;
            if k < tools.len() - 1 {
                assert(tools.drop_last()[k] == t);
                assert(tools.drop_last().contains(t));
                let j = choose|j: int| 0 <= j < rest.len() && rest[j] == t;
                if tools.last().name@ != name {
                    assert(rest.push(tools.last())[j] == t);
                }
            } else {
                assert(rest.push(tools.last())[rest.len() as int] == t);
            }
        }
    }
}

/// Records a fresh install: any earlier entry for the same tool is dropped
/// and the new one goes last.
pub fn record_install(registry: &mut Registry, tool: ManagedTool)
    ensures
        final(registry).tools@ == without_tool(old(registry).tools@, tool.name@).push(tool),
{
    let mut kept: Vec<ManagedTool> = Vec::new();
    let ghost old_tools = registry.tools@;
    let mut i: usize = 0;
    assert(old_tools.take(0) =~= seq![]);
    while i < registry.tools.len()
        invariant
            i <= registry.tools.len(),
            registry.tools@ == old_tools,
            kept@ == without_tool(old_tools.take(i as int), tool.name@),
        decreases registry.tools.len() - i,
    {
        let t = &registry.tools[i];
        assert(old_tools.take(i + 1).drop_last() =~= old_tools.take(i as int));
        assert(old_tools.take(i + 1).last() == old_tools[i as int]);
        if !same_str(t.name.as_str(), tool.name.as_str()) {
            kept.push(t.clone_tool());
        }
        i += 1;
    }
    assert(old_tools.take(i as int) =~= old_tools);
    kept.push(tool);
    registry.tools = kept;
}

impl ManagedTool {
    /// A field-by-field copy.
    pub fn clone_tool(&self) -> (r: ManagedTool)
        ensures
            r == *self,
    {
        ManagedTool {
            name: self.name.clone(),
            version: self.version.clone(),
            method: self.method.clone(),
            path: self.path.clone(),
            installed_at: self.installed_at,
            managed_by: self.managed_by.clone(),
        }
    }
}

/// After a recorded install the registry holds exactly one entry for the
/// tool (the new one) and every entry for another tool is kept.
pub proof fn lemma_record_install_unique(before: Seq<ManagedTool>, tool: ManagedTool)
    ensures
        ({
            let after = without_tool(before, tool.name@).push(tool);
            &&& after.last() == tool
            &&& forall|k: int| 0 <= k < after.len() - 1 ==> (#[trigger] after[k]).name@ != tool.name@
            &&& forall|t: ManagedTool| before.contains(t) && t.name@ != tool.name@ ==> after.contains(t)
        }),
{
    let kept = without_tool(before, tool.name@);
    let after = kept.push(tool);
    lemma_without_tool(before, tool.name@);
    assert forall|k: int| 0 <= k < after.len() - 1 implies (#[trigger] after[k]).name@ != tool.name@ by {
        assert(after[k] == kept[k]);
    }
    assert forall|t: ManagedTool| before.contains(t) && t.name@ != tool.name@ implies after.contains(t) by {
        assert(kept.contains(t));
        let k = choose|k: int| 0 <= k < kept.len() && kept[k] == t;
        assert(after[k] == t);
    }
}

/// The message `tools install` ends with: nothing to install when nothing
/// was requested; a decline; or where the tools went when one was
/// installed.
pub open spec fn install_note(requested_empty: bool, installable_empty: bool, confirmed: bool, installed_any: bool, bin_dir: Seq<char>) -> Option<Seq<char>> {
    if installable_empty {
        if requested_empty { Some("nothing to install: no recommended tools are missing"@) } else { None }
    } else if !confirmed {
        Some("declined by user; nothing was installed"@)
    } else if installed_any {
        Some("installed to "@ + bin_dir + ". Add it to PATH to use the managed tools."@)
    } else {
        None
    }
}

pub fn install_note_exec(requested_empty: bool, installable_empty: bool, confirmed: bool, installed_any: bool, bin_dir: &str) -> (r: Option<String>)
    ensures
        match r {
            Some(s) => install_note(requested_empty, installable_empty, confirmed, installed_any, bin_dir@) == Some(s@),
            None => install_note(requested_empty, installable_empty, confirmed, installed_any, bin_dir@) is None,
        },
{
    if installable_empty {
        if requested_empty { Some(string_from("nothing to install: no recommended tools are missing")) } else { None }
    } else if !confirmed {
        Some(string_from("declined by user; nothing was installed"))
    } else if installed_any {
        let mut s = string_from("installed to ");
        push_str(&mut s, bin_dir);
        push_str(&mut s, ". Add it to PATH to use the managed tools.");
        Some(s)
    } else {
        None
    }
}

/// The method a cargo install is recorded with in the registry.
pub fn install_method(package: &str) -> (r: String)
    ensures
        r@ == "cargo install "@ + package@ + " --locked"@,
{
    let mut s = crate::text::string_from("cargo install ");
    crate::text::push_str(&mut s, package);
    crate::text::push_str(&mut s, " --locked");
    s
}

/// `tools install` exits 5 when an install failed, 0 otherwise.
pub fn install_exit_code(any_failed: bool) -> (r: i32)
    ensures
        r == if any_failed { 5i32 } else { 0i32 },
{
    if any_failed { 5 } else { 0 }
}

/// The error when cargo is needed for an install and missing (exit 3).
pub fn missing_cargo() -> (r: AiError)
    ensures
        r->Check_code@ == "MISSING_REQUIRED_TOOL"@,
        r->Check_message@ == "cargo is required for managed installs but was not found"@,
        r->Check_remediation matches Some(m) && m@ == "install a Rust toolchain first"@,
{
    AiError::new("MISSING_REQUIRED_TOOL", string_from("cargo is required for managed installs but was not found"), Some("install a Rust toolchain first"))
}

} // verus!
