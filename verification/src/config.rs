use vstd::prelude::*;

use crate::order::{sort_strings, sorted_strings};
use crate::text::{clone_strings, push_char, push_str, same_str, string_from};

verus! {

pub const REPO_MANIFEST: &'static str = ".engineering/aicontext.toml";
pub const PROJECT_STATE: &'static str = ".engineering/PROJECT_STATE.md";
pub const PATTERNS: &'static str = ".engineering/PATTERNS.md";
pub const CONSISTENCY: &'static str = ".engineering/consistency.yml";
pub const AST_GREP_RULES: &'static str = ".engineering/rules/ast-grep";
pub const REPO_SCHEMA: &'static str = "aicontext/v1";
pub const CONSISTENCY_SCHEMA: &'static str = "aicontext/consistency/v1";

/// `.engineering/aicontext.toml`.
#[derive(Debug, Clone)]
pub struct RepoConfig {
    pub schema: String,
    pub project: ProjectSection,
    pub state: StateSection,
    pub version: VersionSection,
    pub search: SearchSection,
    pub tools: ToolsSection,
    pub consistency: ConsistencySection,
    pub repository: RepositorySection,
    pub subprojects: SubprojectsSection,
}

#[derive(Debug, Clone)]
pub struct ProjectSection {
    pub name: String,
    pub profile: String,
}

#[derive(Debug, Clone)]
pub struct StateSection {
    pub project_state: String,
    pub patterns: String,
}

#[derive(Debug, Clone)]
pub struct VersionSection {
    pub source: String,
}

#[derive(Debug, Clone)]
pub struct SearchSection {
    pub text: String,
    pub structural: String,
    pub graph: String,
}

#[derive(Debug, Clone)]
pub struct ToolsSection {
    pub tgrep: ToolMode,
    pub codegraph: ToolMode,
    pub codebase_memory: ToolMode,
    pub rtk: ToolMode,
}

#[derive(Debug, Clone)]
pub struct ToolMode {
    pub mode: String,
}

#[derive(Debug, Clone)]
pub struct ConsistencySection {
    pub manifest: String,
}

#[derive(Debug, Clone)]
pub struct RepositorySection {
    pub size: Option<String>,
}

/// `[subprojects]`: container directories scanned when nothing is declared,
/// and extra declared entries.
#[derive(Debug, Clone)]
pub struct SubprojectsSection {
    pub containers: Vec<String>,
    pub extra: Vec<String>,
}

/// Typed view of `.engineering/consistency.yml` (`aicontext/consistency/v1`).
/// `adapters` holds one entry per adapter name, in ascending name order.
#[derive(Debug, Clone)]
pub struct ConsistencyFile {
    pub schema: String,
    pub version: ConsistencyVersion,
    pub commands: ConsistencyCommands,
    pub protected: Vec<String>,
    pub checks: ConsistencyChecks,
    pub adapters: Vec<AdapterPolicy>,
}

#[derive(Debug, Clone)]
pub struct ConsistencyVersion {
    pub source: String,
    pub projections: Vec<String>,
}

#[derive(Debug, Clone)]
pub struct ConsistencyCommands {
    pub documented: Vec<String>,
}

#[derive(Debug, Clone)]
pub struct ConsistencyChecks {
    pub ast_grep: AstGrepChecks,
}

#[derive(Debug, Clone)]
pub struct AstGrepChecks {
    pub rules: String,
}

/// Per-adapter enforcement declared under `adapters:` in consistency.yml.
#[derive(Debug, Clone)]
pub struct AdapterPolicy {
    pub name: String,
    pub policy: String,
}

pub fn default_ast_grep_rules() -> (r: String)
    ensures
        r@ == AST_GREP_RULES@,
{
    string_from(AST_GREP_RULES)
}

pub fn default_name() -> (r: String)
    ensures
        r@ == "unknown"@,
{
    string_from("unknown")
}

pub fn default_profile() -> (r: String)
    ensures
        r@ == "auto"@,
{
    string_from("auto")
}

pub fn default_project_state() -> (r: String)
    ensures
        r@ == PROJECT_STATE@,
{
    string_from(PROJECT_STATE)
}

pub fn default_patterns() -> (r: String)
    ensures
        r@ == PATTERNS@,
{
    string_from(PATTERNS)
}

pub fn default_version_source() -> (r: String)
    ensures
        r@ == "package.json"@,
{
    string_from("package.json")
}

pub fn default_auto() -> (r: String)
    ensures
        r@ == "auto"@,
{
    string_from("auto")
}

pub fn default_ast_grep() -> (r: String)
    ensures
        r@ == "ast-grep"@,
{
    string_from("ast-grep")
}

pub fn default_consistency() -> (r: String)
    ensures
        r@ == CONSISTENCY@,
{
    string_from(CONSISTENCY)
}

pub fn default_tool_mode() -> (r: ToolMode)
    ensures
        r.mode@ == "auto"@,
{
    ToolMode { mode: default_auto() }
}

/// Defaults of every field, as an absent key leaves them.
pub open spec fn is_default_config(c: RepoConfig) -> bool {
    &&& c.schema@ == REPO_SCHEMA@
    &&& c.project.name@ == "unknown"@
    &&& c.project.profile@ == "auto"@
    &&& c.state.project_state@ == PROJECT_STATE@
    &&& c.state.patterns@ == PATTERNS@
    &&& c.version.source@ == "package.json"@
    &&& c.search.text@ == "auto"@
    &&& c.search.structural@ == "ast-grep"@
    &&& c.search.graph@ == "auto"@
    &&& c.tools.tgrep.mode@ == "auto"@
    &&& c.tools.codegraph.mode@ == "auto"@
    &&& c.tools.codebase_memory.mode@ == "auto"@
    &&& c.tools.rtk.mode@ == "auto"@
    &&& c.consistency.manifest@ == CONSISTENCY@
    &&& c.repository.size is None
    &&& c.subprojects.containers.len() == 0
    &&& c.subprojects.extra.len() == 0
}

impl Default for RepoConfig {
    fn default() -> (r: Self)
        ensures
            is_default_config(r),
    {
        RepoConfig {
            schema: string_from(REPO_SCHEMA),
            project: ProjectSection { name: default_name(), profile: default_profile() },
            state: StateSection { project_state: default_project_state(), patterns: default_patterns() },
            version: VersionSection { source: default_version_source() },
            search: SearchSection { text: default_auto(), structural: default_ast_grep(), graph: default_auto() },
            tools: ToolsSection {
                tgrep: default_tool_mode(),
                codegraph: default_tool_mode(),
                codebase_memory: default_tool_mode(),
                rtk: default_tool_mode(),
            },
            consistency: ConsistencySection { manifest: default_consistency() },
            repository: RepositorySection { size: None },
            subprojects: SubprojectsSection { containers: Vec::new(), extra: Vec::new() },
        }
    }
}

/// `Path::join` on `/`-separated paths: an absolute `rel` replaces `root`,
/// otherwise one separator joins them.
pub open spec fn join_path(root: Seq<char>, rel: Seq<char>) -> Seq<char> {
    if rel.len() > 0 && rel[0] == '/' {
        rel
    } else if root.len() == 0 || root.last() == '/' {
        root + rel
    } else {
        root + seq!['/'] + rel
    }
}

pub fn join_path_exec(root: &str, rel: &str) -> (r: String)
    ensures
        r@ == join_path(root@, rel@),
{
    let rv = crate::text::chars_of(rel);
    let tv = crate::text::chars_of(root);
    if rv.len() > 0 && rv[0] == '/' {
        return string_from(rel);
    }
    let mut out = string_from(root);
    if !(tv.len() == 0 || tv[tv.len() - 1] == '/') {
        push_char(&mut out, '/');
    }
    push_str(&mut out, rel);
    out
}

impl RepoConfig {
    /// Path of `PROJECT_STATE.md` under `root`.
    pub fn state_path(&self, root: &str) -> (r: String)
        ensures
            r@ == join_path(root@, self.state.project_state@),
    {
        join_path_exec(root, self.state.project_state.as_str())
    }

    /// A parsed manifest is accepted only with the `aicontext/v1` schema.
    pub fn check_schema(self) -> (r: Result<RepoConfig, String>)
        ensures
            self.schema@ == REPO_SCHEMA@ ==> r == Ok::<RepoConfig, String>(self),
            self.schema@ != REPO_SCHEMA@ ==> (r matches Err(m) && m@ == "unsupported schema: "@ + self.schema@),
    {
        if same_str(self.schema.as_str(), REPO_SCHEMA) {
            Ok(self)
        } else {
            let mut m = string_from("unsupported schema: ");
            push_str(&mut m, self.schema.as_str());
            Err(m)
        }
    }
}

impl ConsistencyFile {
    /// A parsed consistency manifest is accepted only with its schema.
    pub fn check_schema(self) -> (r: Result<ConsistencyFile, String>)
        ensures
            self.schema@ == CONSISTENCY_SCHEMA@ ==> r == Ok::<ConsistencyFile, String>(self),
            self.schema@ != CONSISTENCY_SCHEMA@ ==> (r matches Err(m) && m@ == "unsupported consistency schema: "@ + self.schema@),
    {
        if same_str(self.schema.as_str(), CONSISTENCY_SCHEMA) {
            Ok(self)
        } else {
            let mut m = string_from("unsupported consistency schema: ");
            push_str(&mut m, self.schema.as_str());
            Err(m)
        }
    }
}

pub open spec fn minimal_toml_text(name: Seq<char>, profile: Seq<char>, version_source: Seq<char>) -> Seq<char> {
    "schema = \"aicontext/v1\"\n\n[project]\nname = \""@ + name + "\"\nprofile = \""@ + profile
        + "\"\n\n[state]\nproject_state = \""@ + PROJECT_STATE@ + "\"\npatterns = \""@ + PATTERNS@
        + "\"\n\n[version]\nsource = \""@ + version_source
        + "\"\n\n[search]\ntext = \"auto\"\nstructural = \"ast-grep\"\ngraph = \"auto\"\n\n[tools.tgrep]\nmode = \"auto\"\n\n[tools.codebase_memory]\nmode = \"auto\"\n\n[tools.codegraph]\nmode = \"auto\"\n\n[tools.rtk]\nmode = \"prefer\"\n\n[consistency]\nmanifest = \""@
        + CONSISTENCY@ + "\"\n"@
}

/// Seed `aicontext.toml` written by `init`, naming the detected version
/// source and a mode for each optional tool.
pub fn minimal_toml(project_name: &str, profile: &str, version_source: &str) -> (r: String)
    ensures
        r@ == minimal_toml_text(project_name@, profile@, version_source@),
{
    let mut s = string_from("schema = \"aicontext/v1\"\n\n[project]\nname = \"");
    push_str(&mut s, project_name);
    push_str(&mut s, "\"\nprofile = \"");
    push_str(&mut s, profile);
    push_str(&mut s, "\"\n\n[state]\nproject_state = \"");
    push_str(&mut s, PROJECT_STATE);
    push_str(&mut s, "\"\npatterns = \"");
    push_str(&mut s, PATTERNS);
    push_str(&mut s, "\"\n\n[version]\nsource = \"");
    push_str(&mut s, version_source);
    push_str(&mut s, "\"\n\n[search]\ntext = \"auto\"\nstructural = \"ast-grep\"\ngraph = \"auto\"\n\n[tools.tgrep]\nmode = \"auto\"\n\n[tools.codebase_memory]\nmode = \"auto\"\n\n[tools.codegraph]\nmode = \"auto\"\n\n[tools.rtk]\nmode = \"prefer\"\n\n[consistency]\nmanifest = \"");
    push_str(&mut s, CONSISTENCY);
    push_str(&mut s, "\"\n");
    s
}

/// `    - <command>\n` for each command.
pub open spec fn documented_lines(cmds: Seq<Seq<char>>) -> Seq<char>
    decreases cmds.len(),
{
    if cmds.len() == 0 {
        seq![]
    } else {
        documented_lines(cmds.drop_last()) + "    - "@ + cmds.last() + seq!['\n']
    }
}

pub const CONSISTENCY_HEADER: &'static str = "# Consistency declarations (`aicontext check` enforces them).\n# - version.projections: files that must contain the resolved version.\n# - commands.documented: must match detected scripts exactly (init seeds it).\n# - protected: paths that must exist. Empty lists enforce nothing.\n# - checks.ast_grep.rules: rule files executed by `check`; a match fails.\nschema: aicontext/consistency/v1\nversion:\n  source: package.json\n  projections: []\ncommands:\n";

pub open spec fn minimal_consistency_text(commands: Seq<Seq<char>>) -> Seq<char> {
    let sorted = sorted_strings(commands);
    CONSISTENCY_HEADER@ + (if sorted.len() == 0 {
        "  documented: []\n"@
    } else {
        "  documented:\n"@ + documented_lines(sorted)
    }) + "protected: []\nchecks:\n  ast_grep:\n    rules: "@ + AST_GREP_RULES@ + seq!['\n']
}

/// Seed `consistency.yml` written by `init`: the detected commands,
/// sorted, are the documented ones.
pub fn minimal_consistency(commands: &Vec<String>) -> (r: String)
    ensures
        r@ == minimal_consistency_text(commands.deep_view()),
{
    let sorted = sort_strings(clone_strings(commands));
    let mut s = string_from(CONSISTENCY_HEADER);
    if sorted.len() == 0 {
        push_str(&mut s, "  documented: []\n");
    } else {
        push_str(&mut s, "  documented:\n");
        let ghost all = sorted.deep_view();
        let ghost base = s@;
        let mut i: usize = 0;
        assert(all.subrange(0, 0) =~= Seq::<Seq<char>>::empty());
        while i < sorted.len()
            invariant
                i <= sorted.len(),
                all == sorted.deep_view(),
                s@ == base + documented_lines(all.subrange(0, i as int)),
            decreases sorted.len() - i,
        {
            assert(all.subrange(0, i + 1).drop_last() =~= all.subrange(0, i as int));
            push_str(&mut s, "    - ");
            push_str(&mut s, sorted[i].as_str());
            push_char(&mut s, '\n');
            i += 1;
        }
        assert(all.subrange(0, sorted.len() as int) =~= all);
    }
    push_str(&mut s, "protected: []\nchecks:\n  ast_grep:\n    rules: ");
    push_str(&mut s, AST_GREP_RULES);
    push_char(&mut s, '\n');
    s
}

/// The seeded consistency manifest depends only on which commands were
/// detected, counted with repetition, never on the order they came in.
pub proof fn lemma_minimal_consistency_order_free(a: Seq<Seq<char>>, b: Seq<Seq<char>>)
    requires
        a.to_multiset() == b.to_multiset(),
    ensures
        minimal_consistency_text(a) == minimal_consistency_text(b),
{
    crate::order::lemma_lex_total_ordering();
    a.lemma_sort_by_ensures(crate::order::lex_leq());
    b.lemma_sort_by_ensures(crate::order::lex_leq());
    vstd::seq_lib::lemma_sorted_unique(sorted_strings(a), sorted_strings(b), crate::order::lex_leq());
}

} // verus!
