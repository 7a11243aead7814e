use vstd::prelude::*;
use std::cmp::Ordering;

use crate::order::{lex_le, lex_le_exec};
use crate::output::AiError;
use crate::text::{
    chars_of, numeric_prefix, numeric_prefix_exec, push_str, same_chars, split_chars, split_on, string_from,
    trim, trim_string,
};

verus! {

pub const SELF_UPDATE_SCHEMA: &'static str = "aicontext/self-update/v1";
pub const SELF_UNINSTALL_SCHEMA: &'static str = "aicontext/self-uninstall/v1";
pub const INSTALLER_CMD: &'static str = "curl -LsSf https://github.com/JhonMA82/AiContext/releases/latest/download/aicontext-installer.sh | sh";
pub const GIT_URL: &'static str = "https://github.com/JhonMA82/AiContext";
pub const CARGO_INSTALL_CMD: &'static str = "cargo install --git https://github.com/JhonMA82/AiContext --locked";

// ---------------------------------------------------------------------------
// Version order
// ---------------------------------------------------------------------------

/// Result of comparing two versions, in the order of the first.
#[derive(Debug, Clone, Copy, PartialEq, Eq, Structural)]
pub enum Rank {
    Less,
    Equal,
    Greater,
}

pub open spec fn rank_ordering(r: Rank) -> Ordering {
    match r {
        Rank::Less => Ordering::Less,
        Rank::Equal => Ordering::Equal,
        Rank::Greater => Ordering::Greater,
    }
}

/// `current` against `latest`: `Less` when `current` is older.
pub fn compare_versions(current: &str, latest: &str) -> (r: Ordering)
    ensures
        r == rank_ordering(version_order(current@, latest@)),
{
    match version_rank_exec(current, latest) {
        Rank::Less => Ordering::Less,
        Rank::Equal => Ordering::Equal,
        Rank::Greater => Ordering::Greater,
    }
}

/// Order of two dot-separated components: by their numeric prefix first,
/// then as strings.
pub open spec fn part_order(a: Seq<char>, b: Seq<char>) -> Rank {
    let na = numeric_prefix(a);
    let nb = numeric_prefix(b);
    if na < nb {
        Rank::Less
    } else if na > nb {
        Rank::Greater
    } else if a == b {
        Rank::Equal
    } else if lex_le(a, b) {
        Rank::Less
    } else {
        Rank::Greater
    }
}

/// Component-wise order; a version that runs out of components first is
/// the older one.
pub open spec fn parts_order(a: Seq<Seq<char>>, b: Seq<Seq<char>>) -> Rank
    decreases a.len(),
{
    if a.len() == 0 && b.len() == 0 {
        Rank::Equal
    } else if b.len() == 0 {
        Rank::Greater
    } else if a.len() == 0 {
        Rank::Less
    } else {
        let o = part_order(a[0], b[0]);
        if o == Rank::Equal {
            parts_order(a.drop_first(), b.drop_first())
        } else {
            o
        }
    }
}

/// How version `current` relates to version `latest`.
pub open spec fn version_order(current: Seq<char>, latest: Seq<char>) -> Rank {
    parts_order(split_on(current, '.'), split_on(latest, '.'))
}

fn part_rank_exec(a: &Vec<char>, b: &Vec<char>) -> (r: Rank)
    ensures
        r == part_order(a@, b@),
{
    let na = numeric_prefix_exec(a);
    let nb = numeric_prefix_exec(b);
    if na < nb {
        Rank::Less
    } else if na > nb {
        Rank::Greater
    } else if same_chars(a, b) {
        Rank::Equal
    } else if lex_le_exec(a, b) {
        Rank::Less
    } else {
        Rank::Greater
    }
}

/// Compares two dotted versions (see [`version_order`]).
pub fn version_rank_exec(current: &str, latest: &str) -> (r: Rank)
    ensures
        r == version_order(current@, latest@),
{
    let a = split_chars(&chars_of(current), '.');
    let b = split_chars(&chars_of(latest), '.');
    let ghost sa = a@.map_values(|p: Vec<char>| p@);
    let ghost sb = b@.map_values(|p: Vec<char>| p@);
    let mut i: usize = 0;
    assert(sa.skip(0) =~= sa);
    assert(sb.skip(0) =~= sb);
    loop
        invariant
            i <= a.len(),
            i <= b.len(),
            sa == a@.map_values(|p: Vec<char>| p@),
            sb == b@.map_values(|p: Vec<char>| p@),
            parts_order(sa, sb) == parts_order(sa.skip(i as int), sb.skip(i as int)),
            sa == split_on(current@, '.'),
            sb == split_on(latest@, '.'),
        decreases a.len() - i,
    {
        if i == a.len() && i == b.len() {
            return Rank::Equal;
        }
        if i == b.len() {
            return Rank::Greater;
        }
        if i == a.len() {
            return Rank::Less;
        }
        let o = part_rank_exec(&a[i], &b[i]);
        assert(sa.skip(i as int)[0] == a@[i as int]@);
        assert(sb.skip(i as int)[0] == b@[i as int]@);
        assert(sa.skip(i as int).drop_first() =~= sa.skip(i + 1));
        assert(sb.skip(i as int).drop_first() =~= sb.skip(i + 1));
        match o {
            Rank::Equal => {
                i += 1;
            },
            _ => {
                return o;
            },
        }
    }
}

proof fn lemma_part_order_refl(a: Seq<char>)
    ensures
        part_order(a, a) == Rank::Equal,
{
}

proof fn lemma_part_order_flip(a: Seq<char>, b: Seq<char>)
    ensures
        part_order(a, b) == Rank::Less <==> part_order(b, a) == Rank::Greater,
        part_order(a, b) == Rank::Equal <==> a == b,
{
    if a != b && numeric_prefix(a) == numeric_prefix(b) {
        crate::order::lemma_lex_total_ordering();
        assert(crate::order::lex_leq()(a, b) || crate::order::lex_leq()(b, a));
        if lex_le(a, b) && lex_le(b, a) {
            assert(crate::order::lex_leq()(a, b) && crate::order::lex_leq()(b, a));
        }
    }
}

proof fn lemma_parts_order(a: Seq<Seq<char>>, b: Seq<Seq<char>>)
    ensures
        parts_order(a, a) == Rank::Equal,
        parts_order(a, b) == Rank::Less <==> parts_order(b, a) == Rank::Greater,
        parts_order(a, b) == Rank::Equal <==> a == b,
    decreases a.len(),
{
    if a.len() == 0 && b.len() == 0 {
        assert(a =~= b);
    }
    if a.len() > 0 {
        lemma_part_order_refl(a[0]);
        lemma_parts_order(a.drop_first(), a.drop_first());
    }
    if a.len() > 0 && b.len() > 0 {
        lemma_part_order_flip(a[0], b[0]);
        lemma_parts_order(a.drop_first(), b.drop_first());
        if a[0] == b[0] && a.drop_first() == b.drop_first() {
            assert(a =~= seq![a[0]] + a.drop_first());
            assert(b =~= seq![b[0]] + b.drop_first());
        }
        if a == b {
            assert(a.drop_first() == b.drop_first());
        }
    }
}

/// A version equals only itself; `a` is older than `b` exactly when `b` is
/// newer than `a`.
pub proof fn lemma_version_order_laws(a: Seq<char>, b: Seq<char>)
    ensures
        version_order(a, a) == Rank::Equal,
        version_order(a, b) == Rank::Equal <==> a == b,
        version_order(a, b) == Rank::Less <==> version_order(b, a) == Rank::Greater,
{
    lemma_parts_order(split_on(a, '.'), split_on(b, '.'));
    lemma_parts_order(split_on(a, '.'), split_on(a, '.'));
    if split_on(a, '.') == split_on(b, '.') {
        crate::text::lemma_split_join(a, '.');
        crate::text::lemma_split_join(b, '.');
    }
}

// ---------------------------------------------------------------------------
// Release discovery
// ---------------------------------------------------------------------------

/// A raw version string without surrounding whitespace and one leading `v`.
pub open spec fn clean_version(raw: Seq<char>) -> Seq<char> {
    let t = trim(raw);
    if t.len() > 0 && t[0] == 'v' {
        t.drop_first()
    } else {
        t
    }
}

/// The first candidate that is a string whose cleaned form is non-empty.
pub open spec fn pick_version(candidates: Seq<Option<Seq<char>>>) -> Option<Seq<char>>
    decreases candidates.len(),
{
    if candidates.len() == 0 {
        None
    } else {
        match candidates[0] {
            Some(raw) if clean_version(raw).len() > 0 => Some(clean_version(raw)),
            _ => pick_version(candidates.drop_first()),
        }
    }
}

pub open spec fn opt_views(c: Seq<Option<String>>) -> Seq<Option<Seq<char>>> {
    c.map_values(|o: Option<String>| match o { Some(s) => Some(s@), None => None })
}

fn clean_version_exec(raw: &str) -> (r: String)
    ensures
        r@ == clean_version(raw@),
{
    let t = chars_of(trim_string(raw).as_str());
    let mut out = String::new();
    let start: usize = if t.len() > 0 && t[0] == 'v' { 1 } else { 0 };
    crate::text::push_range(&mut out, &t, start, t.len());
    assert(t@.subrange(start as int, t.len() as int) =~= clean_version(raw@));
    out
}

/// The release version announced by a registry answer. `candidates` holds,
/// in this order, the string values (if any) at `/crate/max_version`,
/// `max_version`, `version` and `tag_name`.
pub fn extract_version(candidates: &Vec<Option<String>>) -> (r: Option<String>)
    ensures
        match r {
            Some(v) => pick_version(opt_views(candidates@)) == Some(v@),
            None => pick_version(opt_views(candidates@)) is None,
        },
{
    let ghost all = opt_views(candidates@);
    let mut i: usize = 0;
    assert(all.skip(0) =~= all);
    while i < candidates.len()
        invariant
            i <= candidates.len(),
            all == opt_views(candidates@),
            pick_version(all) == pick_version(all.skip(i as int)),
        decreases candidates.len() - i,
    {
        assert(all.skip(i as int).drop_first() =~= all.skip(i + 1));
        assert(all.skip(i as int)[0] == all[i as int]);
        match &candidates[i] {
            Some(raw) => {
                let cleaned = clean_version_exec(raw.as_str());
                if !cleaned.as_str().is_empty() {
                    return Some(cleaned);
                }
            },
            None => {},
        }
        i += 1;
    }
    assert(all.skip(i as int) =~= Seq::<Option<Seq<char>>>::empty());
    None
}

// ---------------------------------------------------------------------------
// Update
// ---------------------------------------------------------------------------

pub open spec fn tag_of(known: Seq<char>) -> Seq<char> {
    "v"@ + known
}

/// Arguments of the `cargo install` that updates from the git repository,
/// pinned to the release tag when the latest release is known.
pub open spec fn install_args_spec(latest: Option<Seq<char>>) -> Seq<Seq<char>> {
    match latest {
        Some(k) => seq!["install"@, "--git"@, GIT_URL@, "--tag"@, tag_of(k), "--locked"@],
        None => seq!["install"@, "--git"@, GIT_URL@, "--locked"@],
    }
}

pub open spec fn install_display_spec(latest: Option<Seq<char>>) -> Seq<char> {
    match latest {
        Some(k) => "cargo install --git "@ + GIT_URL@ + " --tag "@ + tag_of(k) + " --locked"@,
        None => CARGO_INSTALL_CMD@,
    }
}

pub open spec fn opt_str(o: Option<&str>) -> Option<Seq<char>> {
    match o {
        Some(s) => Some(s@),
        None => None,
    }
}

pub fn cargo_install_args(latest: Option<&str>) -> (r: Vec<String>)
    ensures
        r.deep_view() == install_args_spec(opt_str(latest)),
{
    let r = match latest {
        Some(known) => {
            let mut tag = string_from("v");
            push_str(&mut tag, known);
            vec![
                string_from("install"),
                string_from("--git"),
                string_from(GIT_URL),
                string_from("--tag"),
                tag,
                string_from("--locked"),
            ]
        },
        None => vec![string_from("install"), string_from("--git"), string_from(GIT_URL), string_from("--locked")],
    };
    assert(r.deep_view() =~= install_args_spec(opt_str(latest)));
    r
}

pub fn cargo_install_display(latest: Option<&str>) -> (r: String)
    ensures
        r@ == install_display_spec(opt_str(latest)),
{
    match latest {
        Some(known) => {
            let mut s = string_from("cargo install --git ");
            push_str(&mut s, GIT_URL);
            push_str(&mut s, " --tag v");
            push_str(&mut s, known);
            push_str(&mut s, " --locked");
            proof {
                reveal_strlit(" --tag v");
                reveal_strlit(" --tag ");
                reveal_strlit("v");
                assert(s@ =~= install_display_spec(opt_str(latest)));
            }
            s
        },
        None => string_from(CARGO_INSTALL_CMD),
    }
}

/// What `self update` and `self update --check` report.
pub struct UpdateInfo {
    pub current: String,
    pub latest: Option<String>,
    pub up_to_date: Option<bool>,
    pub action: String,
    pub method: Option<String>,
    pub note: String,
}

/// The next step of `self update`.
pub enum UpdateDecision {
    /// Print the report; exit 0.
    Report(UpdateInfo),
    /// Run `cargo` with these arguments; `display` is the command as shown.
    RunCargo { args: Vec<String>, display: String },
    /// Print the error; exit with the code.
    Fail { error: AiError, exit: i32 },
}

pub open spec fn up_to_date_note(current: Seq<char>, latest: Seq<char>) -> Seq<char> {
    "already up to date (current "@ + current + ", latest "@ + latest + ")"@
}

pub open spec fn available_note(current: Seq<char>, latest: Seq<char>) -> Seq<char> {
    "update available (current "@ + current + ", latest "@ + latest + "); rerun with `--yes` to update"@
}

pub open spec fn offline_note(current: Seq<char>) -> Seq<char> {
    "registry unreachable (offline?); current version "@ + current + ", latest unknown — nothing was changed"@
}

pub open spec fn installer_note() -> Seq<char> {
    "cargo-dist-managed install detected; rerun the official installer: "@ + INSTALLER_CMD@
}

pub open spec fn opt_string_view(o: Option<String>) -> Option<Seq<char>> {
    match o {
        Some(s) => Some(s@),
        None => None,
    }
}

pub open spec fn info_is(i: UpdateInfo, current: Seq<char>, latest: Option<Seq<char>>, up_to_date: Option<bool>, action: Seq<char>, method: Option<Seq<char>>, note: Seq<char>) -> bool {
    &&& i.current@ == current
    &&& opt_string_view(i.latest) == latest
    &&& i.up_to_date == up_to_date
    &&& i.action@ == action
    &&& opt_string_view(i.method) == method
    &&& i.note@ == note
}

fn between_parts(a: &str, b: &str, c: &str, d: &str, e: &str) -> (r: String)
    ensures
        r@ == a@ + b@ + c@ + d@ + e@,
{
    let mut s = string_from(a);
    push_str(&mut s, b);
    push_str(&mut s, c);
    push_str(&mut s, d);
    push_str(&mut s, e);
    s
}

fn opt_string(o: Option<&str>) -> (r: Option<String>)
    ensures
        opt_string_view(r) == opt_str(o),
{
    match o {
        Some(s) => Some(string_from(s)),
        None => None,
    }
}

fn make_info(current: &str, latest: Option<&str>, up_to_date: Option<bool>, action: &str, method: Option<&str>, note: String) -> (r: UpdateInfo)
    ensures
        info_is(r, current@, opt_str(latest), up_to_date, action@, opt_str(method), note@),
{
    UpdateInfo {
        current: string_from(current),
        latest: opt_string(latest),
        up_to_date,
        action: string_from(action),
        method: opt_string(method),
        note,
    }
}

/// `self update --check`: compares with the latest release when it is
/// known; never changes anything.
pub fn check_report(current: &str, latest: Option<&str>) -> (r: UpdateInfo)
    ensures
        match latest {
            Some(l) => {
                let newer = version_order(current@, l@) == Rank::Less;
                info_is(r, current@, Some(l@), Some(!newer), "check"@, None,
                    if newer { available_note(current@, l@) } else { up_to_date_note(current@, l@) })
            },
            None => info_is(r, current@, None, None, "check"@, None, offline_note(current@)),
        },
{
    match latest {
        Some(l) => {
            let newer = match version_rank_exec(current, l) {
                Rank::Less => true,
                _ => false,
            };
            let note = if newer {
                between_parts("update available (current ", current, ", latest ", l, "); rerun with `--yes` to update")
            } else {
                between_parts("already up to date (current ", current, ", latest ", l, ")")
            };
            make_info(current, Some(l), Some(!newer), "check", None, note)
        },
        None => {
            let note = between_parts("registry unreachable (offline?); current version ", current, ", latest unknown — nothing was changed", "", "");
            proof {
                reveal_strlit("");
                assert(note@ =~= offline_note(current@));
            }
            make_info(current, None, None, "check", None, note)
        },
    }
}

pub open spec fn error_is(e: AiError, code: Seq<char>, message: Seq<char>, remediation: Option<Seq<char>>) -> bool {
    &&& e->Check_code@ == code
    &&& e->Check_message@ == message
    &&& opt_string_view(e->Check_remediation) == remediation
}

/// `self update` once the latest release has been looked up (`latest` is
/// ignored without `yes`): refuse without `--yes`; report "up-to-date"
/// when the current version is not older; point a cargo-dist install at
/// its installer; otherwise update through cargo from git, or fail when
/// cargo is missing. The binary is never overwritten in place.
pub fn update_decision(current: &str, yes: bool, latest: Option<&str>, dist_managed: bool, cargo_present: bool) -> (r: UpdateDecision)
    ensures
        !yes ==> (r matches UpdateDecision::Fail { error, exit } && exit == 2
            && error_is(error, "INVALID_USAGE"@, "refusing to update without --yes"@, Some("aicontext self update --yes"@))),
        yes && latest is Some && version_order(current@, latest->0@) != Rank::Less ==> (r matches UpdateDecision::Report(i)
            && info_is(i, current@, Some(latest->0@), Some(true), "up-to-date"@, None, up_to_date_note(current@, latest->0@))),
        yes && !(latest is Some && version_order(current@, latest->0@) != Rank::Less) && dist_managed ==> (r matches UpdateDecision::Report(i)
            && info_is(i, current@, opt_str(latest), if latest is Some { Some(false) } else { None }, "update"@, Some("installer"@), installer_note())),
        yes && !(latest is Some && version_order(current@, latest->0@) != Rank::Less) && !dist_managed && cargo_present ==> (r matches UpdateDecision::RunCargo { args, display }
            && args.deep_view() == install_args_spec(opt_str(latest)) && display@ == install_display_spec(opt_str(latest))),
        yes && !(latest is Some && version_order(current@, latest->0@) != Rank::Less) && !dist_managed && !cargo_present ==> (r matches UpdateDecision::Fail { error, exit } && exit == 3
            && error_is(error, "MISSING_REQUIRED_TOOL"@, "cargo is required for a managed update but was not found"@, Some(CARGO_INSTALL_CMD@))),
{
    if !yes {
        return UpdateDecision::Fail {
            error: AiError::new("INVALID_USAGE", string_from("refusing to update without --yes"), Some("aicontext self update --yes")),
            exit: 2,
        };
    }
    if let Some(known) = latest {
        let not_older = match version_rank_exec(current, known) {
            Rank::Less => false,
            _ => true,
        };
        if not_older {
            let note = between_parts("already up to date (current ", current, ", latest ", known, ")");
            return UpdateDecision::Report(make_info(current, latest, Some(true), "up-to-date", None, note));
        }
    }
    if dist_managed {
        let note = between_parts("cargo-dist-managed install detected; rerun the official installer: ", INSTALLER_CMD, "", "", "");
        proof {
            reveal_strlit("");
            assert(note@ =~= installer_note());
        }
        let up = match latest {
            Some(_) => Some(false),
            None => None,
        };
        return UpdateDecision::Report(make_info(current, latest, up, "update", Some("installer"), note));
    }
    if cargo_present {
        return UpdateDecision::RunCargo { args: cargo_install_args(latest), display: cargo_install_display(latest) };
    }
    UpdateDecision::Fail {
        error: AiError::new("MISSING_REQUIRED_TOOL", string_from("cargo is required for a managed update but was not found"), Some(CARGO_INSTALL_CMD)),
        exit: 3,
    }
}

pub open spec fn cargo_failure_message(display: Seq<char>, latest: Option<Seq<char>>) -> Seq<char> {
    "`"@ + display + "` failed; latest known: "@ + match latest {
        Some(l) => l,
        None => "unknown (offline?)"@,
    }
}

/// `path` is `dir` itself or lies under it (`/`-separated paths; a
/// trailing `/` on `dir` is allowed).
pub open spec fn inside_dir(path: Seq<char>, dir: Seq<char>) -> bool {
    path == dir || crate::text::starts_with(path, if dir.len() > 0 && dir.last() == '/' { dir } else { dir + "/"@ })
}

/// Whether `self uninstall` may touch `path`: only what lies inside one of
/// the owned directories (the managed prefix, cargo's bin directory).
pub fn path_inside(path: &str, dir: &str) -> (r: bool)
    ensures
        r == inside_dir(path@, dir@),
{
    if crate::text::same_str(path, dir) {
        return true;
    }
    let d = chars_of(dir);
    let mut prefix = string_from(dir);
    if !(d.len() > 0 && d[d.len() - 1] == '/') {
        push_str(&mut prefix, "/");
    }
    crate::text::starts_with_str(path, prefix.as_str())
}

/// What `self update` reports once `cargo install` has run.
pub fn cargo_outcome(current: &str, latest: Option<&str>, display: &str, succeeded: bool) -> (r: UpdateDecision)
    ensures
        succeeded ==> (r matches UpdateDecision::Report(i)
            && info_is(i, current@, opt_str(latest), Some(true), "update"@, Some("cargo"@), "updated via `"@ + display@ + "`"@)),
        !succeeded ==> (r matches UpdateDecision::Fail { error, exit } && exit == 5
            && error_is(error, "TOOL_EXECUTION_FAILURE"@, cargo_failure_message(display@, opt_str(latest)), Some(display@))),
{
    if succeeded {
        let note = between_parts("updated via `", display, "`", "", "");
        proof {
            reveal_strlit("");
            assert(note@ =~= "updated via `"@ + display@ + "`"@);
        }
        UpdateDecision::Report(make_info(current, latest, Some(true), "update", Some("cargo"), note))
    } else {
        let known = match latest {
            Some(l) => l,
            None => "unknown (offline?)",
        };
        let message = between_parts("`", display, "` failed; latest known: ", known, "");
        proof {
            reveal_strlit("");
            assert(message@ =~= cargo_failure_message(display@, opt_str(latest)));
        }
        UpdateDecision::Fail { error: AiError::new("TOOL_EXECUTION_FAILURE", message, Some(display)), exit: 5 }
    }
}


proof fn lemma_part_order_trans(a: Seq<char>, b: Seq<char>, c: Seq<char>)
    requires
        part_order(a, b) == Rank::Less,
        part_order(b, c) == Rank::Less,
    ensures
        part_order(a, c) == Rank::Less,
{
    if numeric_prefix(a) == numeric_prefix(c) {
        crate::order::lemma_lex_trans(a, b, c);
        if a == c {
            crate::order::lemma_lex_antisym(b, c);
        }
    }
}

proof fn lemma_parts_order_trans(a: Seq<Seq<char>>, b: Seq<Seq<char>>, c: Seq<Seq<char>>)
    requires
        parts_order(a, b) == Rank::Less,
        parts_order(b, c) == Rank::Less,
    ensures
        parts_order(a, c) == Rank::Less,
    decreases a.len(),
{
    if a.len() > 0 {
        let o1 = part_order(a[0], b[0]);
        let o2 = part_order(b[0], c[0]);
        lemma_part_order_flip(a[0], b[0]);
        lemma_part_order_flip(b[0], c[0]);
        if o1 == Rank::Equal && o2 == Rank::Equal {
            lemma_parts_order_trans(a.drop_first(), b.drop_first(), c.drop_first());
            lemma_part_order_refl(a[0]);
        } else if o1 == Rank::Less && o2 == Rank::Less {
            lemma_part_order_trans(a[0], b[0], c[0]);
        }
    }
}

/// Version order is transitive: older than an older version is older.
pub proof fn lemma_version_order_transitive(a: Seq<char>, b: Seq<char>, c: Seq<char>)
    requires
        version_order(a, b) == Rank::Less,
        version_order(b, c) == Rank::Less,
    ensures
        version_order(a, c) == Rank::Less,
{
    lemma_parts_order_trans(split_on(a, '.'), split_on(b, '.'), split_on(c, '.'));
}

} // verus!
