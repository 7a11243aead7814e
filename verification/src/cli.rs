//! The command line, as values: `app/` parses arguments into these.
use vstd::prelude::*;

verus! {

/// Deterministic repository intelligence CLI.
#[derive(Debug, Clone)]
pub struct Cli {
    pub command: Command,
}

#[derive(Debug, Clone)]
pub enum Command {
    /// Initialize .engineering/ context in the current repo (idempotent).
    Init { profile: Option<String>, non_interactive: bool, json: bool, recursive: bool },
    /// Collect deterministic facts about the repo (read-only).
    Scan { json: bool },
    /// Refresh only the generated block of PROJECT_STATE.md.
    Sync { check: bool, json: bool },
    /// Compact human/machine status.
    Status { json: bool },
    /// Deterministic completion gate (non-zero exit on real failure).
    Check { json: bool },
    /// Diagnose CLI, config, state and tooling with exact remediation.
    Doctor { json: bool },
    /// Layered search: knowledge, text, AST, impact.
    Search {
        query: String,
        text: bool,
        structure: bool,
        impact: bool,
        scope: Option<String>,
        subproject: Option<String>,
        json: bool,
    },
    /// External tool detection, recommendations and managed installs.
    Tools { cmd: ToolsCommand },
    /// Install or remove agent skills managed by AIContext.
    Agent { cmd: AgentCommand },
    /// Update or remove this binary and its owned state.
    SelfMgmt { cmd: SelfCommand },
    /// Shell completion script (the shell's name).
    Completion { shell: String },
}

#[derive(Debug, Clone)]
pub enum ToolsCommand {
    /// Detect useful tooling and explain why (never installs).
    Plan { json: bool },
    /// Show availability, versions and ownership of known tools.
    Status { json: bool },
    /// Install a tool (or the recommended ones) into the managed prefix.
    Install { tool: Option<String>, recommended: bool, yes: bool, json: bool },
    /// Update managed tools.
    Update { yes: bool, json: bool },
    /// Remove managed tools.
    Uninstall { tool: Option<String>, managed: bool, yes: bool, json: bool },
}

#[derive(Debug, Clone)]
pub enum AgentCommand {
    /// Install the aicontext-adopt skill plus the minimal AGENTS.md pointer.
    Install { agent: String, json: bool },
    /// Remove only files owned by AIContext (never foreign files).
    Uninstall { agent: String, json: bool },
}

#[derive(Debug, Clone)]
pub enum SelfCommand {
    Update { check: bool, yes: bool, json: bool },
    Uninstall { managed: bool, yes: bool, json: bool },
}

} // verus!
