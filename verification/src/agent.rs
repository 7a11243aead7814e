use vstd::prelude::*;

use crate::output::AiError;
use crate::state::CONTEXT_START;
use crate::text::{contains, contains_str, push_str, same_str, string_from};

verus! {

/// Name of the skill that `agent install` places for an agent.
pub const SKILL_NAME: &'static str = "aicontext-adopt";

/// Ownership manifest written next to an installed skill.
pub const MANAGED_MANIFEST: &'static str = ".aicontext-managed.json";

/// Legacy, unmarked `AGENTS.md` pointer appended by `agent install`; the
/// marked context block wraps exactly this body.
pub const AGENTS_POINTER: &'static str = "## Repository context\n\nBefore broad repository exploration, read:\n- `.engineering/PROJECT_STATE.md`\n- `.engineering/PATTERNS.md`\n\nPrefer `aicontext search` and declared references before broad scanning.\n\nBefore declaring implementation complete, run:\n`aicontext check`\n";

pub open spec fn legacy_pointer(text: Seq<char>) -> bool {
    contains(text, "## Repository context"@) && contains(text, ".engineering/PROJECT_STATE.md"@)
        && !contains(text, CONTEXT_START@)
}

/// True when the pre-marker pointer text is present without the marked
/// context block.
pub fn legacy_pointer_present(text: &str) -> (r: bool)
    ensures
        r == legacy_pointer(text@),
{
    contains_str(text, "## Repository context") && contains_str(text, ".engineering/PROJECT_STATE.md")
        && !contains_str(text, CONTEXT_START)
}

/// The agents that `agent install|uninstall` serve: `pi` and `opencode`.
pub open spec fn supported_agent(agent: Seq<char>) -> bool {
    agent == "pi"@ || agent == "opencode"@
}

/// Refuses an agent other than `pi` and `opencode`, naming the two.
pub fn check_agent(agent: &str) -> (r: Result<(), AiError>)
    ensures
        supported_agent(agent@) <==> r is Ok,
        r matches Err(e) ==> e->Check_code@ == "UNSUPPORTED_AGENT"@ && e->Check_message@ == "agent '"@
            + agent@ + "' is not supported (supported: pi, opencode)"@ && e->Check_remediation is None,
{
    if same_str(agent, "pi") || same_str(agent, "opencode") {
        return Ok(());
    }
    let mut message = string_from("agent '");
    push_str(&mut message, agent);
    push_str(&mut message, "' is not supported (supported: pi, opencode)");
    Err(AiError::new("UNSUPPORTED_AGENT", message, None))
}

/// What `agent install` does to the repository's `AGENTS.md`: the text to
/// write (if any), whether it changed, and the note reported.
pub open spec fn pointer_update(existing: Option<Seq<char>>) -> (Option<Seq<char>>, bool, Seq<char>) {
    match existing {
        None => (None, false, "no AGENTS.md in repo; pointer not added (create one to opt in)"@),
        Some(t) => if contains(t, ".engineering/PROJECT_STATE.md"@) {
            (None, false, "AGENTS.md pointer already present"@)
        } else {
            let base = if t.len() > 0 && t.last() == '\n' { t } else { t + seq!['\n'] };
            (Some(base + seq!['\n'] + AGENTS_POINTER@), true, "AGENTS.md pointer appended"@)
        },
    }
}

/// Appends the minimal `AGENTS.md` pointer unless the file already points
/// at the project state; a repository without `AGENTS.md` is left alone.
pub fn ensure_agents_pointer(existing: Option<&str>) -> (r: (Option<String>, bool, String))
    ensures
        (match r.0 { Some(t) => Some(t@), None => None }, r.1, r.2@) == pointer_update(match existing {
            Some(t) => Some(t@),
            None => None,
        }),
{
    match existing {
        None => (None, false, string_from("no AGENTS.md in repo; pointer not added (create one to opt in)")),
        Some(t) => {
            if contains_str(t, ".engineering/PROJECT_STATE.md") {
                return (None, false, string_from("AGENTS.md pointer already present"));
            }
            let v = crate::text::chars_of(t);
            let mut out = string_from(t);
            if !(v.len() > 0 && v[v.len() - 1] == '\n') {
                crate::text::push_char(&mut out, '\n');
            }
            crate::text::push_char(&mut out, '\n');
            push_str(&mut out, AGENTS_POINTER);
            (Some(out), true, string_from("AGENTS.md pointer appended"))
        },
    }
}

/// A managed file is written only when its content differs from `current`
/// (absent counts as different), keeping reinstalls zero-diff.
pub fn needs_write(current: Option<&str>, content: &str) -> (r: bool)
    ensures
        r == match current { Some(c) => c@ != content@, None => true },
{
    match current {
        Some(c) => !crate::text::same_str(c, content),
        None => true,
    }
}

/// What `agent uninstall` says of the AGENTS.md pointer: it lives in a
/// user-owned file and is reported, never edited.
pub fn pointer_note(agents_text: Option<&str>) -> (r: &'static str)
    ensures
        r@ == if agents_text matches Some(t) && crate::text::contains(t@, ".engineering/PROJECT_STATE.md"@) {
            "AGENTS.md pointer left in place; remove it manually if desired"@
        } else {
            "no AGENTS.md pointer found"@
        },
{
    match agents_text {
        Some(t) => {
            if crate::text::contains_str(t, ".engineering/PROJECT_STATE.md") {
                "AGENTS.md pointer left in place; remove it manually if desired"
            } else {
                "no AGENTS.md pointer found"
            }
        },
        None => "no AGENTS.md pointer found",
    }
}

/// The context pointer holds no `<`, ends its last line, and none of its
/// lines opens with a level-1 heading: every line starts with a line break,
/// with `##`, or with a character that is neither whitespace nor `#`.
pub proof fn lemma_pointer_shape()
    ensures
        AGENTS_POINTER@.len() > 0,
        AGENTS_POINTER@.last() == '\n',
        forall|i: int| 0 <= i < AGENTS_POINTER@.len() ==> AGENTS_POINTER@[i] != '<',
        forall|a: int| 0 <= a < AGENTS_POINTER@.len() && (a == 0 || AGENTS_POINTER@[a - 1] == '\n')
            ==> #[trigger] line_head_plain(AGENTS_POINTER@, a),
{
    reveal_strlit("## Repository context\n\nBefore broad repository exploration, read:\n- `.engineering/PROJECT_STATE.md`\n- `.engineering/PATTERNS.md`\n\nPrefer `aicontext search` and declared references before broad scanning.\n\nBefore declaring implementation complete, run:\n`aicontext check`\n");
}

/// The line starting at `a` opens with a line break, with `##`, or with a
/// character that is neither whitespace nor `#`: it is no level-1 heading.
pub open spec fn line_head_plain(s: Seq<char>, a: int) -> bool {
    ||| s[a] == '\n'
    ||| (!crate::text::is_ws(s[a]) && s[a] != '#')
    ||| (a + 1 < s.len() && s[a] == '#' && s[a + 1] == '#')
}


/// `agent install` is idempotent on `AGENTS.md`: once the pointer has been
/// appended, the next install finds it and writes nothing.
pub proof fn lemma_pointer_once(existing: Option<Seq<char>>)
    ensures
        pointer_update(existing).0 matches Some(t2) ==> pointer_update(Some(t2)).0 is None && pointer_update(Some(t2)).1
            == false,
{
    if let Some(t2) = pointer_update(existing).0 {
        let ptr = AGENTS_POINTER@;
        let phrase = ".engineering/PROJECT_STATE.md"@;
        reveal_strlit("## Repository context\n\nBefore broad repository exploration, read:\n- `.engineering/PROJECT_STATE.md`\n- `.engineering/PATTERNS.md`\n\nPrefer `aicontext search` and declared references before broad scanning.\n\nBefore declaring implementation complete, run:\n`aicontext check`\n");
        reveal_strlit(".engineering/PROJECT_STATE.md");
        assert(ptr.subrange(69, 98) =~= phrase);
        let t = existing->0;
        let base = if t.len() > 0 && t.last() == '\n' { t } else { t + seq!['\n'] };
        let k: int = base.len() as int + 70;
        assert(t2 == base + seq!['\n'] + ptr);
        assert(t2.subrange(k, k + 29) =~= ptr.subrange(69, 98));
        assert(crate::text::occurs_at(t2, phrase, k));
        crate::text::lemma_find_from(t2, phrase, 0);
    }
}

/// What `agent install` leaves in `AGENTS.md`: the text with the pointer
/// appended, or the file as it was.
pub open spec fn agents_after_install(existing: Option<Seq<char>>) -> Option<Seq<char>> {
    match pointer_update(existing).0 {
        Some(t) => Some(t),
        None => existing,
    }
}

/// Whether `agent install` changes anything: the skill or its ownership
/// manifest must be written (see [`needs_write`]) or the pointer is added.
pub open spec fn install_changes(
    skill: Option<Seq<char>>,
    manifest: Option<Seq<char>>,
    agents: Option<Seq<char>>,
    body: Seq<char>,
    manifest_text: Seq<char>,
) -> bool {
    (match skill { Some(c) => c != body, None => true })
        || (match manifest { Some(c) => c != manifest_text, None => true })
        || pointer_update(agents).1
}

/// A repeated `agent install` is zero-diff: after a first install wrote the
/// skill and its manifest and left `AGENTS.md` with at most one appended
/// pointer, the second changes nothing.
pub proof fn lemma_install_twice_changes_nothing(agents: Option<Seq<char>>, body: Seq<char>, manifest_text: Seq<char>)
    ensures
        !install_changes(Some(body), Some(manifest_text), agents_after_install(agents), body, manifest_text),
{
    lemma_pointer_once(agents);
}

} // verus!
