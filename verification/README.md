# aicontext

Repository intelligence for coding agents: a deterministic command line
(`scan`, `check`, `init`/`sync`/`status`, `search`, `doctor`, `tools`,
`agent`, `self`) whose decisions are made by a library verified with Verus.

## Layout

- `src/` — the verified library. Every decision of the command line lives
  here as a function with a `requires`/`ensures` contract over
  mathematical models (`Seq<char>` for text, spec functions for the
  rendered files), together with the laws that span several functions.
  - `state` — `PROJECT_STATE.md` rendering, marked-block placement in
    `AGENTS.md` (routing and context blocks), drift, `.gitignore` entries,
    the `status` counts.
  - `scan` — languages, line counts, package managers, subproject
    selection (declared paths, container scan, Engineering Platform
    surfaces) and ordering.
  - `check`, `doctor` — every gate and diagnostic, as findings (among
    them the Engineering Platform drift, the subproject manifest's shape
    and its reconciliation with the detected subprojects, and the skill
    installed for each agent, pi and opencode).
  - `search` — scope resolution, grep parsing, knowledge hits, the
    codebase-memory pipeline (a state machine the caller drives) and the
    graph router.
  - `adapters`, `tools`, `tools_install`, `self_update`, `agent`,
    `engineering`, `config`, `order`, `text`, `output`, `cli`.
- `app/` — the program around the library: arguments, files, processes,
  network, JSON/YAML/TOML reading and printing. It gathers facts, hands
  them to the library and performs what the library decides.
- `tests/` — tests of the library on concrete values.

## Proved properties (selection)

- Whole runs: a second `init` on what the first left writes no seed file
  and a byte-identical `PROJECT_STATE.md` (`state::lemma_init_idempotent`
  over `init_writes`); one `sync` converges — afterwards `sync --check`
  finds no drift and a second `sync` writes nothing, curated text kept
  (`state::lemma_sync_converges`).
- Subproject selection never picks a path with a hidden or excluded
  segment (`scan::select_candidates`); a tool's version is the trimmed
  first line of its `--version` output, `unknown` when empty
  (`tools::probe_version`).
- Runs converge: once `init` has written `AGENTS.md`, the next `init`,
  `sync` or `sync --check` with the same subprojects writes nothing
  (`state::lemma_agents_md_converges`, `lemma_routing_runs_converge`,
  `lemma_marked_file_converges`, `lemma_context_file_converges`,
  `lemma_legacy_file_converges`, `lemma_routing_file_converges`); bytes
  outside the markers are kept.
- `init` seeds `.engineering/subprojects.yml` with every detected path as
  `pending` and never rewrites an existing one (`state::seed_subprojects`).
- `sync --check` never writes, `sync` never creates `AGENTS.md` nor
  inserts a missing block, fewer than two subprojects never get a router.
- `PROJECT_STATE.md`: the generated block reads back as written, the
  curated block survives re-rendering, a written state shows no drift
  (`lemma_generated_roundtrip`, `lemma_curated_roundtrip`,
  `lemma_state_converges`); `.gitignore` converges after one `init`.
- A second upsert of a routing or context block rendered from its
  literal markers changes nothing (`lemma_marked_block_upsert_idempotent`);
  a changed commit hash alone is no drift
  (`lemma_commit_change_keeps_freshness`); the seeded consistency manifest
  ignores the order of the commands
  (`config::lemma_minimal_consistency_order_free`); a repeated
  `agent install` is zero-diff (`agent::lemma_install_twice_changes_nothing`).
- The graph router runs only usable backends, codebase-memory-mcp before
  codegraph, and stops at the first ready answer
  (`search::lemma_route_runs_only_usable`, `lemma_ready_is_terminal`).
- Advisory adapters never block `check`; optional tools never fail
  `doctor`.
- Search never leaves its scope; graph and grep answers stay bounded.
- Only cargo-installable tools are ever installed; project-local adapters
  are never recommended for a global install.
- Version comparison is a total order (`self_update::lemma_version_order_laws`,
  `lemma_version_order_transitive`).
