//! `aicontext search`: project knowledge first, then literal, structural or
//! impact (graph) search, always inside the effective scope. The caller
//! runs the backends; what is asked of them and what is made of their
//! answers is decided here.
use vstd::prelude::*;

use crate::adapters::{truncate, truncate_spec};
use crate::output::AiError;
use crate::text::{
    chars_of, contains, join, join_strs, lines, lines_exec, parse_u64, parse_u64_spec, push_char, push_str,
    replace_char, same_str, split_chars, split_on, starts_with, strip_dot_slash, string_from, string_of, trim,
    trim_end_char, trim_string,
};

verus! {

pub const SEARCH_SCHEMA: &'static str = "aicontext/search/v1";
pub const MAX_HITS: usize = 30;
pub const MAX_LINE_CHARS: usize = 300;

/// One match of a code search.
#[derive(Debug, Clone)]
pub struct TextHit {
    pub path: String,
    pub line: u64,
    pub text: String,
}

/// One match in the persisted project knowledge.
#[derive(Debug, Clone)]
pub struct KnowledgeHit {
    pub file: String,
    pub line: u64,
    pub text: String,
}

pub type HitView = (Seq<char>, u64, Seq<char>);

pub open spec fn hv(h: TextHit) -> HitView {
    (h.path@, h.line, h.text@)
}

// ---------------------------------------------------------------------------
// Scope
// ---------------------------------------------------------------------------

/// The normalized form of a `--in`/`--subproject` value: trimmed,
/// backslashes as `/`, leading `./` pairs and trailing `/` removed; empty
/// or `.` is the whole repository (`.`).
pub open spec fn scope_form(raw: Seq<char>) -> Seq<char> {
    trim_end_char(strip_dot_slash(replace_char(trim(raw), '\\', '/')), '/')
}

/// A scope that would leave the repository or be read as an option:
/// absolute, a drive letter, a leading `-`, or a `..` segment.
pub open spec fn scope_invalid(s: Seq<char>) -> bool {
    (s.len() > 0 && (s[0] == '/' || s[0] == '-')) || (s.len() > 1 && s[1] == ':') || split_on(s, '/').contains(".."@)
}

pub open spec fn normalize_spec(raw: Seq<char>) -> Result<Seq<char>, Seq<char>> {
    let s = scope_form(raw);
    if s.len() == 0 || s == "."@ {
        Ok("."@)
    } else if scope_invalid(s) {
        Err("scope `"@ + raw + "` must be a repo-relative path inside the repository"@)
    } else {
        Ok(s)
    }
}

pub open spec fn err_msg(e: AiError) -> Seq<char> {
    e->Check_message@
}

/// The normalized form of a scope value (see [`scope_form`]).
pub fn scope_form_exec(raw: &str) -> (s: String)
    ensures
        s@ == scope_form(raw@),
{
    let t = chars_of(trim_string(raw).as_str());
    let mut r: Vec<char> = Vec::new();
    let mut i: usize = 0;
    while i < t.len()
        invariant
            i <= t.len(),
            r@ == replace_char(t@.take(i as int), '\\', '/'),
        decreases t.len() - i,
    {
        let c = t[i];
        r.push(if c == '\\' { '/' } else { c });
        assert(replace_char(t@.take(i + 1), '\\', '/') =~= replace_char(t@.take(i as int), '\\', '/').push(if c == '\\' { '/' } else { c }));
        i += 1;
    }
    assert(t@.take(i as int) =~= t@);
    let ghost rv = r@;
    let mut p: usize = 0;
    assert(rv.skip(0) =~= rv);
    while p < r.len() && r.len() - p >= 2 && r[p] == '.' && r[p + 1] == '/'
        invariant
            p <= r.len(),
            rv == r@,
            strip_dot_slash(rv) == strip_dot_slash(rv.skip(p as int)),
        decreases r.len() - p,
    {
        assert(rv.skip(p as int).skip(2) =~= rv.skip(p + 2));
        p += 2;
    }
    let mut e: usize = r.len();
    assert(rv.skip(p as int) =~= rv.subrange(p as int, e as int));
    while e > p && r[e - 1] == '/'
        invariant
            p <= e <= r.len(),
            rv == r@,
            trim_end_char(strip_dot_slash(rv), '/') == trim_end_char(rv.subrange(p as int, e as int), '/'),
        decreases e - p,
    {
        assert(rv.subrange(p as int, e as int).drop_last() =~= rv.subrange(p as int, e - 1));
        e -= 1;
    }
    let ghost sv = rv.subrange(p as int, e as int);
    assert(scope_form(raw@) == sv);
    let mut s = String::new();
    crate::text::push_range(&mut s, &r, p, e);
    s
}

/// Normalizes a scope value (see [`normalize_spec`]); an invalid one is an
/// `INVALID_SCOPE` error.
pub fn normalize_scope(raw: &str) -> (r: Result<String, AiError>)
    ensures
        match r {
            Ok(s) => normalize_spec(raw@) == Ok::<Seq<char>, Seq<char>>(s@),
            Err(e) => normalize_spec(raw@) == Err::<Seq<char>, Seq<char>>(err_msg(e))
                && e->Check_code@ == "INVALID_SCOPE"@ && e->Check_remediation is None,
        },
{
    let s = scope_form_exec(raw);
    if s.as_str().is_empty() || same_str(s.as_str(), ".") {
        return Ok(string_from("."));
    }
    let sc = chars_of(s.as_str());
    let parts = split_chars(&sc, '/');
    let bad = (sc.len() > 0 && (sc[0] == '/' || sc[0] == '-')) || (sc.len() > 1 && sc[1] == ':')
        || crate::text::has_part(&parts, &chars_of(".."));
    if bad {
        let mut m = string_from("scope `");
        push_str(&mut m, raw);
        push_str(&mut m, "` must be a repo-relative path inside the repository");
        return Err(AiError::new("INVALID_SCOPE", m, None));
    }
    Ok(s)
}

/// The effective search scope: the path handed to every backend (`.` is
/// the whole repository) and the labels reported for `--in` and
/// `--subproject`.
#[derive(Debug, Clone)]
pub struct Scope {
    pub path: String,
    pub label: Option<String>,
    pub subproject: Option<String>,
}

pub open spec fn sv(o: Option<String>) -> Option<Seq<char>> {
    match o {
        Some(s) => Some(s@),
        None => None,
    }
}

pub open spec fn opt_str(o: Option<&str>) -> Option<Seq<char>> {
    match o {
        Some(s) => Some(s@),
        None => None,
    }
}

/// The value that decides the scope: `--subproject` wins over `--in`.
pub open spec fn scope_input(scope: Option<Seq<char>>, subproject: Option<Seq<char>>) -> Option<(Seq<char>, bool)> {
    match subproject {
        Some(s) => Some((s, true)),
        None => match scope {
            Some(s) => Some((s, false)),
            None => None,
        },
    }
}

/// The effective scope. Without a value it is the whole repository. A
/// `--subproject` must normalize to exactly one of the `detected`
/// subproject paths (the error lists them); an `--in` path must exist
/// (`exists`: the normalized path exists under the root).
pub open spec fn resolve_spec(scope: Option<Seq<char>>, subproject: Option<Seq<char>>, detected: Seq<Seq<char>>, exists: bool)
    -> Result<(Seq<char>, Option<Seq<char>>, Option<Seq<char>>), Seq<char>> {
    match scope_input(scope, subproject) {
        None => Ok(("."@, None, None)),
        Some((raw, from_sub)) => match normalize_spec(raw) {
            Err(m) => Err(m),
            Ok(n) => if from_sub {
                if detected.contains(n) {
                    Ok((n, Some(n), Some(n)))
                } else {
                    Err("`"@ + n + "` is not a detected subproject; candidates: "@
                        + if detected.len() == 0 { "(none detected)"@ } else { join(detected, ", "@) })
                }
            } else if exists {
                Ok((n, Some(n), None))
            } else {
                Err("scope `"@ + n + "` does not exist under the repository root"@)
            },
        },
    }
}

proof fn lemma_dot_scope_valid()
    ensures
        !scope_invalid("."@),
{
    reveal_strlit(".");
    reveal_strlit("..");
    let d = "."@;
    assert(d.drop_last() =~= Seq::<char>::empty());
    assert(split_on(d.drop_last(), '/') == seq![Seq::<char>::empty()]);
    assert(split_on(d, '/') =~= seq![seq!['.']]);
    assert(".."@.len() == 2);
    assert(!split_on(d, '/').contains(".."@)) by {
        if split_on(d, '/').contains(".."@) {
            let j = choose|j: int| 0 <= j < split_on(d, '/').len() && split_on(d, '/')[j] == ".."@;
            assert(split_on(d, '/')[j].len() == 1);
        }
    }
}

/// A resolved scope never leaves the repository: it is never absolute, a
/// drive path, an option-like value or a path with a `..` segment.
pub proof fn lemma_scope_stays_inside(scope: Option<Seq<char>>, subproject: Option<Seq<char>>, detected: Seq<Seq<char>>, exists: bool)
    ensures
        resolve_spec(scope, subproject, detected, exists) matches Ok(t) ==> !scope_invalid(t.0),
{
    lemma_dot_scope_valid();
}

pub fn resolve_scope(scope: Option<&str>, subproject: Option<&str>, detected: &Vec<String>, exists: bool) -> (r: Result<Scope, AiError>)
    ensures
        match r {
            Ok(s) => resolve_spec(opt_str(scope), opt_str(subproject), detected.deep_view(), exists)
                == Ok::<(Seq<char>, Option<Seq<char>>, Option<Seq<char>>), Seq<char>>((s.path@, sv(s.label), sv(s.subproject))),
            Err(e) => resolve_spec(opt_str(scope), opt_str(subproject), detected.deep_view(), exists)
                == Err::<(Seq<char>, Option<Seq<char>>, Option<Seq<char>>), Seq<char>>(err_msg(e))
                && e->Check_code@ == "INVALID_SCOPE"@,
        },
{
    let (raw, from_sub) = match (scope, subproject) {
        (_, Some(sub)) => (sub, true),
        (Some(s), None) => (s, false),
        (None, None) => {
            return Ok(Scope { path: string_from("."), label: None, subproject: None });
        },
    };
    let normalized = match normalize_scope(raw) {
        Ok(n) => n,
        Err(e) => {
            return Err(e);
        },
    };
    if from_sub {
        let mut found = false;
        let mut i: usize = 0;
        while i < detected.len()
            invariant
                i <= detected.len(),
                !found ==> forall|k: int| 0 <= k < i ==> detected.deep_view()[k] != normalized@,
                found ==> detected.deep_view().contains(normalized@),
            decreases detected.len() - i,
        {
            if same_str(detected[i].as_str(), normalized.as_str()) {
                assert(detected.deep_view()[i as int] == normalized@);
                found = true;
            }
            i += 1;
        }
        if !found {
            let mut m = string_from("`");
            push_str(&mut m, normalized.as_str());
            push_str(&mut m, "` is not a detected subproject; candidates: ");
            if detected.len() == 0 {
                push_str(&mut m, "(none detected)");
            } else {
                push_str(&mut m, join_strs(detected, ", ").as_str());
            }
            return Err(AiError::new("INVALID_SCOPE", m, Some("aicontext scan --json")));
        }
        return Ok(Scope { path: normalized.clone(), label: Some(normalized.clone()), subproject: Some(normalized) });
    }
    if !exists {
        let mut m = string_from("scope `");
        push_str(&mut m, normalized.as_str());
        push_str(&mut m, "` does not exist under the repository root");
        return Err(AiError::new("INVALID_SCOPE", m, None));
    }
    Ok(Scope { path: normalized.clone(), label: Some(normalized), subproject: None })
}

/// Whether a repo-relative hit path falls inside the scope.
pub open spec fn in_scope_spec(path: Seq<char>, scope: Seq<char>) -> bool {
    scope == "."@ || path == scope || starts_with(path, scope + "/"@)
}

pub fn in_scope(path: &str, scope: &str) -> (r: bool)
    ensures
        r == in_scope_spec(path@, scope@),
{
    if same_str(scope, ".") || same_str(path, scope) {
        return true;
    }
    let mut prefix = string_from(scope);
    push_str(&mut prefix, "/");
    crate::text::starts_with_str(path, prefix.as_str())
}

// ---------------------------------------------------------------------------
// Text backends
// ---------------------------------------------------------------------------

/// The first position of `c` in `s`, if any.
pub open spec fn index_of(s: Seq<char>, c: char) -> Option<int>
    decreases s.len(),
{
    if s.len() == 0 {
        None
    } else if s[0] == c {
        Some(0)
    } else {
        match index_of(s.drop_first(), c) {
            Some(k) => Some(k + 1),
            None => None,
        }
    }
}

/// `path:line:text` read from one output line (the text may hold more
/// colons): a non-empty path and a positive line number are required.
pub open spec fn grep_hit(line: Seq<char>) -> Option<HitView> {
    match index_of(line, ':') {
        None => None,
        Some(a) => {
            let path = line.take(a);
            let after = line.skip(a + 1);
            match index_of(after, ':') {
                None => None,
                Some(b) => {
                    let num = after.take(b);
                    let text = after.skip(b + 1);
                    match parse_u64_spec(trim(num)) {
                        Some(n) => if path.len() == 0 || n == 0 {
                            None
                        } else {
                            Some((path, n, truncate_spec(trim(text), 300)))
                        },
                        None => None,
                    }
                },
            }
        },
    }
}

/// The hits of grep-like output, at most 30, in output order.
pub open spec fn grep_hits(ls: Seq<Seq<char>>) -> Seq<HitView>
    decreases ls.len(),
{
    if ls.len() == 0 {
        seq![]
    } else {
        let rest = grep_hits(ls.drop_last());
        if rest.len() >= 30 {
            rest
        } else {
            match grep_hit(ls.last()) {
                Some(h) => rest.push(h),
                None => rest,
            }
        }
    }
}

/// Text search reports at most 30 hits, whatever the backend printed.
pub proof fn lemma_grep_hits_bounded(ls: Seq<Seq<char>>)
    ensures
        grep_hits(ls).len() <= 30,
    decreases ls.len(),
{
    if ls.len() > 0 {
        lemma_grep_hits_bounded(ls.drop_last());
    }
}

fn index_of_exec(v: &Vec<char>, from: usize, c: char) -> (r: Option<usize>)
    requires
        from <= v.len(),
    ensures
        match r {
            Some(k) => from <= k < v.len() && index_of(v@.skip(from as int), c) == Some(k - from),
            None => index_of(v@.skip(from as int), c) is None,
        },
{
    let ghost s = v@.skip(from as int);
    let mut i: usize = from;
    while i < v.len()
        invariant
            from <= i <= v.len(),
            s == v@.skip(from as int),
            forall|k: int| from <= k < i ==> v@[k] != c,
        decreases v.len() - i,
    {
        if v[i] == c {
            proof {
                lemma_index_of_at(s, c, i - from);
            }
            return Some(i);
        }
        i += 1;
    }
    proof {
        lemma_index_of_none(s, c);
    }
    None
}

proof fn lemma_index_of_at(s: Seq<char>, c: char, k: int)
    requires
        0 <= k < s.len(),
        s[k] == c,
        forall|j: int| 0 <= j < k ==> s[j] != c,
    ensures
        index_of(s, c) == Some(k),
    decreases k,
{
    if k > 0 {
        lemma_index_of_at(s.drop_first(), c, k - 1);
    }
}

proof fn lemma_index_of_none(s: Seq<char>, c: char)
    requires
        forall|j: int| 0 <= j < s.len() ==> s[j] != c,
    ensures
        index_of(s, c) is None,
    decreases s.len(),
{
    if s.len() > 0 {
        lemma_index_of_none(s.drop_first(), c);
    }
}

fn grep_hit_exec(v: &Vec<char>) -> (r: Option<TextHit>)
    ensures
        match r {
            Some(h) => grep_hit(v@) == Some(hv(h)),
            None => grep_hit(v@) is None,
        },
{
    assert(v@.skip(0) =~= v@);
    let a = match index_of_exec(v, 0, ':') {
        Some(a) => a,
        None => {
            return None;
        },
    };
    let ghost after = v@.skip(a + 1);
    let b = match index_of_exec(v, a + 1, ':') {
        Some(b) => b,
        None => {
            return None;
        },
    };
    let path = crate::text::string_of_range(v, 0, a);
    let num = crate::text::string_of_range(v, a + 1, b);
    let text = crate::text::string_of_range(v, b + 1, v.len());
    assert(path@ =~= v@.take(a as int));
    assert(num@ =~= after.take(b - (a + 1)));
    assert(text@ =~= after.skip(b - (a + 1) + 1));
    match parse_u64(trim_string(num.as_str()).as_str()) {
        Some(n) => {
            if path.as_str().is_empty() || n == 0 {
                None
            } else {
                let t = truncate(trim_string(text.as_str()).as_str(), 300);
                Some(TextHit { path, line: n, text: t })
            }
        },
        None => None,
    }
}

/// Hits of grep-like `path:line:text` output (see [`grep_hits`]).
pub fn parse_grep_lines(output: &str) -> (r: Vec<TextHit>)
    ensures
        r@.map_values(|h: TextHit| hv(h)) == grep_hits(lines(output@)),
{
    let ls = lines_exec(&chars_of(output));
    let ghost lv = ls@.map_values(|l: Vec<char>| l@);
    let mut hits: Vec<TextHit> = Vec::new();
    let mut i: usize = 0;
    assert(lv.take(0) =~= seq![]);
    assert(hits@.map_values(|h: TextHit| hv(h)) =~= seq![]);
    while i < ls.len()
        invariant
            i <= ls.len(),
            lv == ls@.map_values(|l: Vec<char>| l@),
            lv == lines(output@),
            hits@.map_values(|h: TextHit| hv(h)) == grep_hits(lv.take(i as int)),
        decreases ls.len() - i,
    {
        assert(lv.take(i + 1).drop_last() =~= lv.take(i as int));
        assert(lv.take(i + 1).last() == ls@[i as int]@);
        if hits.len() < MAX_HITS {
            match grep_hit_exec(&ls[i]) {
                Some(h) => {
                    let ghost before = hits@.map_values(|h: TextHit| hv(h));
                    hits.push(h);
                    assert(hits@.map_values(|h: TextHit| hv(h)) =~= before.push(grep_hit(lv[i as int])->0));
                },
                None => {},
            }
        }
        i += 1;
    }
    assert(lv.take(i as int) =~= lv);
    hits
}

/// Arguments of the literal search backends: all run in fixed-strings mode
/// with the scope as trailing path, so `--text` is truly literal and never
/// leaves the subtree.
pub open spec fn backend_args_spec(program: Seq<char>, query: Seq<char>, scope: Seq<char>) -> Seq<Seq<char>> {
    if program == "tgrep"@ {
        seq!["search"@, "-F"@, "-n"@, "--color"@, "never"@, "-e"@, query, "--"@, scope]
    } else if program == "rg"@ {
        seq!["--fixed-strings"@, "--line-number"@, "--no-heading"@, "--color"@, "never"@, "--max-columns"@, "300"@, "--no-messages"@, "-e"@, query, scope]
    } else {
        seq!["grep"@, "-F"@, "-n"@, "-I"@, "--no-color"@, "-e"@, query, "--"@, scope]
    }
}

/// Arguments for `tgrep`, `rg`, or (any other program) `git grep`.
pub fn backend_args(program: &str, query: &str, scope: &str) -> (r: Vec<String>)
    ensures
        r.deep_view() == backend_args_spec(program@, query@, scope@),
{
    let q = string_from(query);
    let s = string_from(scope);
    let r = if same_str(program, "tgrep") {
        vec![string_from("search"), string_from("-F"), string_from("-n"), string_from("--color"), string_from("never"), string_from("-e"), q, string_from("--"), s]
    } else if same_str(program, "rg") {
        vec![string_from("--fixed-strings"), string_from("--line-number"), string_from("--no-heading"), string_from("--color"), string_from("never"),
            string_from("--max-columns"), string_from("300"), string_from("--no-messages"), string_from("-e"), q, s]
    } else {
        vec![string_from("grep"), string_from("-F"), string_from("-n"), string_from("-I"), string_from("--no-color"), string_from("-e"), q, string_from("--"), s]
    };
    assert(r.deep_view() =~= backend_args_spec(program@, query@, scope@));
    r
}

/// Literal search tries tgrep, then rg (each when installed), then git
/// grep: the programs to try, in order.
pub fn literal_backends(tgrep: bool, rg: bool) -> (r: Vec<&'static str>)
    ensures
        r@.map_values(|s: &'static str| s@) == (if tgrep { seq!["tgrep"@] } else { seq![] }) + (if rg { seq!["rg"@] } else { seq![] }) + seq!["git grep"@],
{
    let mut v: Vec<&'static str> = Vec::new();
    if tgrep {
        v.push("tgrep");
    }
    if rg {
        v.push("rg");
    }
    v.push("git grep");
    assert(v@.map_values(|s: &'static str| s@) =~= (if tgrep { seq!["tgrep"@] } else { seq![] }) + (if rg { seq!["rg"@] } else { seq![] }) + seq!["git grep"@]);
    v
}

/// A backend's answer is usable when it exited 0, or 1 (grep-likes exit 1
/// when nothing matched).
pub fn backend_answer_usable(exit_code: Option<i32>) -> (r: bool)
    ensures
        r == (exit_code == Some(0i32) || exit_code == Some(1i32)),
{
    match exit_code {
        Some(c) => c == 0 || c == 1,
        None => false,
    }
}

// ---------------------------------------------------------------------------
// Knowledge (PROJECT_STATE.md, PATTERNS.md)
// ---------------------------------------------------------------------------

pub type KnowView = (Seq<char>, u64, Seq<char>);

pub open spec fn kv(h: KnowledgeHit) -> KnowView {
    (h.file@, h.line, h.text@)
}

/// Every line of a file whose lowercase form contains `needle`, with its
/// 1-based number and trimmed, truncated text.
pub open spec fn matching_lines(file: Seq<char>, ls: Seq<Seq<char>>, needle: Seq<char>) -> Seq<KnowView>
    decreases ls.len(),
{
    if ls.len() == 0 {
        seq![]
    } else {
        let rest = matching_lines(file, ls.drop_last(), needle);
        if contains(crate::text::lowercase(ls.last()), needle) {
            rest.push((file, ls.len() as u64, truncate_spec(trim(ls.last()), 300)))
        } else {
            rest
        }
    }
}

pub open spec fn first_n<A>(s: Seq<A>, n: nat) -> Seq<A> {
    if s.len() > n { s.take(n as int) } else { s }
}

proof fn lemma_matching_prefix(file: Seq<char>, ls: Seq<Seq<char>>, needle: Seq<char>, j: int)
    requires
        0 <= j <= ls.len(),
    ensures
        matching_lines(file, ls.take(j), needle).len() <= matching_lines(file, ls, needle).len(),
        matching_lines(file, ls.take(j), needle) == matching_lines(file, ls, needle).take(matching_lines(file, ls.take(j), needle).len() as int),
    decreases ls.len() - j,
{
    if j == ls.len() {
        assert(ls.take(j) =~= ls);
        assert(matching_lines(file, ls, needle).take(matching_lines(file, ls, needle).len() as int) =~= matching_lines(file, ls, needle));
    } else {
        lemma_matching_prefix(file, ls, needle, j + 1);
        let a = matching_lines(file, ls.take(j), needle);
        let b = matching_lines(file, ls.take(j + 1), needle);
        let full = matching_lines(file, ls, needle);
        assert(ls.take(j + 1).drop_last() =~= ls.take(j));
        assert(b.take(a.len() as int) =~= a);
        assert(full.take(a.len() as int) =~= full.take(b.len() as int).take(a.len() as int));
    }
}

/// A knowledge file is searched when the scope is the whole repository or
/// the file's path starts with it.
pub open spec fn knowledge_file_in_scope(rel: Seq<char>, scope: Seq<char>) -> bool {
    scope == "."@ || starts_with(rel, scope)
}

/// Level 1 of progressive disclosure: matching lines of PROJECT_STATE.md,
/// then PATTERNS.md (each when in scope and readable), ten at most in all;
/// the scope filter applies before the budget.
pub open spec fn knowledge_spec(scope: Seq<char>, query: Seq<char>, state: Option<Seq<char>>, patterns: Option<Seq<char>>) -> Seq<KnowView> {
    let needle = crate::text::lowercase(query);
    let a = match state {
        Some(t) => if knowledge_file_in_scope(crate::config::PROJECT_STATE@, scope) {
            first_n(matching_lines(crate::config::PROJECT_STATE@, lines(t), needle), 10)
        } else {
            seq![]
        },
        None => seq![],
    };
    let b = match patterns {
        Some(t) => if knowledge_file_in_scope(crate::config::PATTERNS@, scope) {
            first_n(matching_lines(crate::config::PATTERNS@, lines(t), needle), (10 - a.len()) as nat)
        } else {
            seq![]
        },
        None => seq![],
    };
    a + b
}

/// The knowledge level never returns more than ten hits, and searches
/// only the files inside the scope.
pub proof fn lemma_knowledge_budget(scope: Seq<char>, query: Seq<char>, state: Option<Seq<char>>, patterns: Option<Seq<char>>)
    ensures
        knowledge_spec(scope, query, state, patterns).len() <= 10,
        forall|k: int| 0 <= k < knowledge_spec(scope, query, state, patterns).len()
            ==> knowledge_file_in_scope((#[trigger] knowledge_spec(scope, query, state, patterns)[k]).0, scope),
{
    let needle = crate::text::lowercase(query);
    let a = match state {
        Some(t) => if knowledge_file_in_scope(crate::config::PROJECT_STATE@, scope) {
            first_n(matching_lines(crate::config::PROJECT_STATE@, lines(t), needle), 10)
        } else {
            seq![]
        },
        None => seq![],
    };
    let b = match patterns {
        Some(t) => if knowledge_file_in_scope(crate::config::PATTERNS@, scope) {
            first_n(matching_lines(crate::config::PATTERNS@, lines(t), needle), (10 - a.len()) as nat)
        } else {
            seq![]
        },
        None => seq![],
    };
    assert(knowledge_spec(scope, query, state, patterns) == a + b);
    if let Some(t) = state {
        lemma_matching_file(crate::config::PROJECT_STATE@, lines(t), needle);
    }
    if let Some(t) = patterns {
        lemma_matching_file(crate::config::PATTERNS@, lines(t), needle);
    }
    assert forall|k: int| 0 <= k < (a + b).len() implies knowledge_file_in_scope((#[trigger] (a + b)[k]).0, scope) by {
        if k < a.len() {
            assert((a + b)[k] == a[k]);
        } else {
            assert((a + b)[k] == b[k - a.len()]);
        }
    }
}

proof fn lemma_matching_file(file: Seq<char>, ls: Seq<Seq<char>>, needle: Seq<char>)
    ensures
        forall|k: int| 0 <= k < matching_lines(file, ls, needle).len() ==> (#[trigger] matching_lines(file, ls, needle)[k]).0 == file,
    decreases ls.len(),
{
    if ls.len() > 0 {
        lemma_matching_file(file, ls.drop_last(), needle);
        let rest = matching_lines(file, ls.drop_last(), needle);
        let all = matching_lines(file, ls, needle);
        assert forall|k: int| 0 <= k < all.len() implies (#[trigger] all[k]).0 == file by {
            if k < rest.len() {
                assert(all[k] == rest[k]);
            }
        }
    }
}

fn file_hits(out: &mut Vec<KnowledgeHit>, file: &str, text: &str, needle: &str)
    requires
        old(out).len() <= 10,
    ensures
        final(out)@.map_values(|h: KnowledgeHit| kv(h)) == old(out)@.map_values(|h: KnowledgeHit| kv(h))
            + first_n(matching_lines(file@, lines(text@), needle@), (10 - old(out).len()) as nat),
        final(out).len() <= 10,
{
    let ls = lines_exec(&chars_of(text));
    let ghost lv = ls@.map_values(|l: Vec<char>| l@);
    let ghost start = out@.map_values(|h: KnowledgeHit| kv(h));
    let ghost room: nat = (10 - out.len()) as nat;
    let mut i: usize = 0;
    assert(lv.take(0) =~= seq![]);
    while i < ls.len()
        invariant
            i <= ls.len(),
            lv == ls@.map_values(|l: Vec<char>| l@),
            lv == lines(text@),
            out.len() <= 10,
            room == 10 - (start.len() as int),
            start == old(out)@.map_values(|h: KnowledgeHit| kv(h)),
            start.len() == old(out).len(),
            out@.map_values(|h: KnowledgeHit| kv(h)) == start + matching_lines(file@, lv.take(i as int), needle@),
            matching_lines(file@, lv.take(i as int), needle@).len() <= room,
        decreases ls.len() - i,
    {
        if out.len() >= 10 {
            proof {
                lemma_matching_prefix(file@, lv, needle@, i as int);
                let m = matching_lines(file@, lv.take(i as int), needle@);
                let full = matching_lines(file@, lv, needle@);
                assert(out@.map_values(|h: KnowledgeHit| kv(h)).len() == out.len());
                assert(m.len() == room);
                if full.len() > room {
                    assert(first_n(full, room) =~= m);
                } else {
                    assert(full.take(m.len() as int) =~= full);
                    assert(first_n(full, room) =~= m);
                }
            }
            return;
        }
        assert(lv.take(i + 1).drop_last() =~= lv.take(i as int));
        assert(lv.take(i + 1).last() == ls@[i as int]@);
        let line = string_of(&ls[i]);
        if crate::text::contains_str(crate::text::to_lower(line.as_str()).as_str(), needle) {
            let ghost before = out@.map_values(|h: KnowledgeHit| kv(h));
            let t = truncate(trim_string(line.as_str()).as_str(), 300);
            out.push(KnowledgeHit { file: string_from(file), line: (i + 1) as u64, text: t });
            assert(out@.map_values(|h: KnowledgeHit| kv(h)) =~= before.push((file@, (i + 1) as u64, truncate_spec(trim(lv[i as int]), 300))));
        }
        i += 1;
    }
    assert(lv.take(i as int) =~= lv);
    assert(first_n(matching_lines(file@, lv, needle@), room) =~= matching_lines(file@, lv, needle@));
}

/// Knowledge hits (see [`knowledge_spec`]); `state` and `patterns` are the
/// texts of the two files, when readable.
pub fn knowledge_search(scope: &str, query: &str, state: Option<&str>, patterns: Option<&str>) -> (r: Vec<KnowledgeHit>)
    ensures
        r@.map_values(|h: KnowledgeHit| kv(h)) == knowledge_spec(scope@, query@, opt_str(state), opt_str(patterns)),
{
    let needle = crate::text::to_lower(query);
    let mut hits: Vec<KnowledgeHit> = Vec::new();
    let whole = same_str(scope, ".");
    match state {
        Some(t) => {
            if whole || crate::text::starts_with_str(crate::config::PROJECT_STATE, scope) {
                file_hits(&mut hits, crate::config::PROJECT_STATE, t, needle.as_str());
            }
        },
        None => {},
    }
    let ghost a = hits@.map_values(|h: KnowledgeHit| kv(h));
    assert(a =~= match opt_str(state) {
        Some(t) => if knowledge_file_in_scope(crate::config::PROJECT_STATE@, scope@) {
            first_n(matching_lines(crate::config::PROJECT_STATE@, lines(t), needle@), 10)
        } else {
            seq![]
        },
        None => seq![],
    });
    match patterns {
        Some(t) => {
            if whole || crate::text::starts_with_str(crate::config::PATTERNS, scope) {
                file_hits(&mut hits, crate::config::PATTERNS, t, needle.as_str());
            }
        },
        None => {},
    }
    assert(hits@.map_values(|h: KnowledgeHit| kv(h)) =~= knowledge_spec(scope@, query@, opt_str(state), opt_str(patterns)));
    hits
}

// ---------------------------------------------------------------------------
// Structural search (ast-grep)
// ---------------------------------------------------------------------------

/// One match of `ast-grep run --json`: its `file`, 0-based
/// `range.start.line` and `lines`, when present.
#[derive(Debug, Clone)]
pub struct StructMatch {
    pub file: Option<String>,
    pub line0: Option<u64>,
    pub lines: Option<String>,
}

/// The first line of a text, or empty.
pub open spec fn first_line(t: Seq<char>) -> Seq<char> {
    if lines(t).len() > 0 { lines(t)[0] } else { seq![] }
}

pub open spec fn struct_hit(m: StructMatch) -> HitView {
    (match m.file { Some(f) => f@, None => "?"@ },
     match m.line0 { Some(l) => (l + 1) as u64, None => 1 },
     truncate_spec(trim(first_line(match m.lines { Some(t) => t@, None => seq![] })), 300))
}

/// The hits of a structural search: one per match, at most 30; lines are
/// reported 1-based.
pub fn structural_hits(matches: &Vec<StructMatch>) -> (r: Vec<TextHit>)
    requires
        forall|i: int| 0 <= i < matches.len() ==> (#[trigger] matches@[i]).line0 != Some(u64::MAX),
    ensures
        r@.map_values(|h: TextHit| hv(h)) == first_n(matches@.map_values(|m: StructMatch| struct_hit(m)), 30),
{
    let ghost all = matches@.map_values(|m: StructMatch| struct_hit(m));
    let mut hits: Vec<TextHit> = Vec::new();
    let mut i: usize = 0;
    while i < matches.len() && i < MAX_HITS
        invariant
            i <= matches.len(),
            i <= MAX_HITS,
            all == matches@.map_values(|m: StructMatch| struct_hit(m)),
            forall|k: int| 0 <= k < matches.len() ==> (#[trigger] matches@[k]).line0 != Some(u64::MAX),
            hits@.map_values(|h: TextHit| hv(h)) == all.take(i as int),
        decreases matches.len() - i,
    {
        let m = &matches[i];
        let path = match &m.file {
            Some(f) => f.clone(),
            None => string_from("?"),
        };
        let line = match m.line0 {
            Some(l) => l + 1,
            None => 1,
        };
        let body = match &m.lines {
            Some(t) => t.clone(),
            None => String::new(),
        };
        let ls = lines_exec(&chars_of(body.as_str()));
        let first = if ls.len() > 0 { string_of(&ls[0]) } else { String::new() };
        assert(first@ == first_line(body@)) by {
            if ls.len() > 0 {
                assert(ls@.map_values(|l: Vec<char>| l@)[0] == ls@[0]@);
            }
        }
        let text = truncate(trim_string(first.as_str()).as_str(), 300);
        let ghost before = hits@.map_values(|h: TextHit| hv(h));
        hits.push(TextHit { path, line, text });
        assert(hits@.map_values(|h: TextHit| hv(h)) =~= before.push(all[i as int]));
        assert(all.take(i + 1) =~= all.take(i as int).push(all[i as int]));
        i += 1;
    }
    assert(hits@.map_values(|h: TextHit| hv(h)) =~= first_n(all, 30)) by {
        if all.len() <= 30 {
            assert(all.take(i as int) =~= all);
        }
    }
    hits
}

/// `--structure` without ast-grep.
pub fn structure_missing_tool() -> (r: AiError)
    ensures
        r->Check_code@ == "MISSING_REQUIRED_TOOL"@,
        r->Check_message@ == "ast-grep is not installed; --structure needs it"@,
        r->Check_remediation matches Some(m) && m@ == "aicontext tools plan"@,
{
    AiError::new("MISSING_REQUIRED_TOOL", string_from("ast-grep is not installed; --structure needs it"), Some("aicontext tools plan"))
}

/// ast-grep did not answer within its 30 s.
pub fn structure_timeout() -> (r: AiError)
    ensures
        r->Check_code@ == "TOOL_TIMEOUT"@,
        r->Check_message@ == "ast-grep did not respond within 30s; --structure needs it healthy"@,
        r->Check_remediation matches Some(m) && m@ == "retry the search or check the ast-grep installation"@,
{
    AiError::new("TOOL_TIMEOUT", string_from("ast-grep did not respond within 30s; --structure needs it healthy"), Some("retry the search or check the ast-grep installation"))
}

/// The search mode: `--impact` wins over `--structure`; text otherwise.
pub fn search_mode(impact: bool, structure: bool) -> (r: &'static str)
    ensures
        r@ == if impact { "impact"@ } else if structure { "structure"@ } else { "text"@ },
{
    if impact {
        "impact"
    } else if structure {
        "structure"
    } else {
        "text"
    }
}

/// The note of an impact search that fell back to text results.
pub fn degraded_note(notes: &Vec<String>) -> (r: String)
    ensures
        r@ == "graph unavailable — degraded to text results ("@ + join(notes.deep_view(), "; "@) + ")"@,
{
    let mut s = string_from("graph unavailable — degraded to text results (");
    push_str(&mut s, join_strs(notes, "; ").as_str());
    push_str(&mut s, ")");
    s
}

// ---------------------------------------------------------------------------
// Graph backends
// ---------------------------------------------------------------------------

/// Preferred graph backend (its binary name).
pub const CBM: &'static str = "codebase-memory-mcp";
/// Fallback graph backend.
pub const CODEGRAPH: &'static str = "codegraph";

/// Result of one graph backend impact query.
#[derive(Debug, Clone)]
pub enum GraphImpact {
    /// The query ran; hits may be empty when the symbol has no relations.
    Ready { backend: &'static str, hits: Vec<TextHit> },
    /// Backend healthy but this repository (or scope) is not indexed.
    NoIndex { backend: &'static str },
    /// Backend present but wedged.
    Timeout { backend: &'static str },
    /// Backend absent or disabled.
    Unavailable { backend: &'static str },
    /// Backend answered but could not resolve the query structurally.
    Invalid { backend: &'static str },
}

pub open spec fn reason_spec(g: GraphImpact) -> Seq<char> {
    match g {
        GraphImpact::Ready { .. } => seq![],
        GraphImpact::NoIndex { backend } => if backend@ == CBM@ {
            backend@ + ": project not indexed"@
        } else {
            backend@ + " index missing — run `"@ + backend@ + " init` for graph results"@
        },
        GraphImpact::Timeout { backend } => backend@ + ": timed out"@,
        GraphImpact::Unavailable { backend } => backend@ + ": not installed"@,
        GraphImpact::Invalid { backend } => backend@ + ": no structural answer (symbol unresolved or scope not covered)"@,
    }
}

impl GraphImpact {
    /// Human reason surfaced in the note when no graph backend answered.
    pub fn reason(&self) -> (r: String)
        ensures
            r@ == reason_spec(*self),
    {
        match self {
            GraphImpact::Ready { .. } => String::new(),
            GraphImpact::NoIndex { backend } => {
                let mut s = string_from(backend);
                if same_str(backend, CBM) {
                    push_str(&mut s, ": project not indexed");
                } else {
                    push_str(&mut s, " index missing — run `");
                    push_str(&mut s, backend);
                    push_str(&mut s, " init` for graph results");
                }
                s
            },
            GraphImpact::Timeout { backend } => {
                let mut s = string_from(backend);
                push_str(&mut s, ": timed out");
                s
            },
            GraphImpact::Unavailable { backend } => {
                let mut s = string_from(backend);
                push_str(&mut s, ": not installed");
                s
            },
            GraphImpact::Invalid { backend } => {
                let mut s = string_from(backend);
                push_str(&mut s, ": no structural answer (symbol unresolved or scope not covered)");
                s
            },
        }
    }
}

/// What one backend call gave back.
#[derive(Debug, Clone)]
pub enum CallAnswer<T> {
    /// No time left, or the call outlived it.
    Timeout,
    /// Non-zero exit (or an error envelope).
    Failed,
    /// Exited 0 but its output is not the expected document.
    Unparsed,
    Parsed(T),
}

/// One entry of codegraph's `affected` list.
#[derive(Debug, Clone)]
pub struct CodegraphItem {
    pub file_path: Option<String>,
    pub start_line: Option<u64>,
    pub name: Option<String>,
    pub kind: Option<String>,
}

pub open spec fn text_or(o: Option<String>, d: Seq<char>) -> Seq<char> {
    match o {
        Some(s) => s@,
        None => d,
    }
}

pub open spec fn codegraph_hit(i: CodegraphItem) -> HitView {
    (text_or(i.file_path, "?"@),
     match i.start_line { Some(l) => if l >= 1 { l } else { 1 }, None => 1 },
     truncate_spec(text_or(i.name, seq![]) + " ("@ + text_or(i.kind, seq![]) + ")"@, 300))
}

/// codegraph's impact answer: a timeout degrades without blaming the
/// index, a failed run means no index, unreadable output is no answer, and
/// the affected entries (30 at most) are the hits.
pub open spec fn codegraph_spec(a: CallAnswer<Vec<CodegraphItem>>) -> (nat, Seq<HitView>) {
    match a {
        CallAnswer::Timeout => (2, seq![]),
        CallAnswer::Failed => (1, seq![]),
        CallAnswer::Unparsed => (4, seq![]),
        CallAnswer::Parsed(items) => (0, first_n(items@.map_values(|i: CodegraphItem| codegraph_hit(i)), 30)),
    }
}

/// The kind of a graph result (0 ready, 1 no index, 2 timeout, 3
/// unavailable, 4 invalid), its backend and its hits.
pub open spec fn impact_view(g: GraphImpact) -> (nat, Seq<char>, Seq<HitView>) {
    match g {
        GraphImpact::Ready { backend, hits } => (0, backend@, hits@.map_values(|h: TextHit| hv(h))),
        GraphImpact::NoIndex { backend } => (1, backend@, seq![]),
        GraphImpact::Timeout { backend } => (2, backend@, seq![]),
        GraphImpact::Unavailable { backend } => (3, backend@, seq![]),
        GraphImpact::Invalid { backend } => (4, backend@, seq![]),
    }
}

fn codegraph_hit_exec(i: &CodegraphItem) -> (r: TextHit)
    ensures
        hv(r) == codegraph_hit(*i),
{
    let path = match &i.file_path {
        Some(p) => p.clone(),
        None => string_from("?"),
    };
    let line = match i.start_line {
        Some(l) => if l >= 1 { l } else { 1 },
        None => 1,
    };
    let mut t = String::new();
    match &i.name {
        Some(n) => push_str(&mut t, n.as_str()),
        None => {},
    }
    push_str(&mut t, " (");
    match &i.kind {
        Some(k) => push_str(&mut t, k.as_str()),
        None => {},
    }
    push_str(&mut t, ")");
    assert(t@ =~= text_or(i.name, seq![]) + " ("@ + text_or(i.kind, seq![]) + ")"@);
    TextHit { path, line, text: truncate(t.as_str(), 300) }
}

/// codegraph's impact result (see [`codegraph_spec`]).
pub fn codegraph_impact(answer: &CallAnswer<Vec<CodegraphItem>>) -> (r: GraphImpact)
    ensures
        impact_view(r) == ((codegraph_spec(*answer).0, CODEGRAPH@, codegraph_spec(*answer).1)),
{
    match answer {
        CallAnswer::Timeout => GraphImpact::Timeout { backend: CODEGRAPH },
        CallAnswer::Failed => GraphImpact::NoIndex { backend: CODEGRAPH },
        CallAnswer::Unparsed => GraphImpact::Invalid { backend: CODEGRAPH },
        CallAnswer::Parsed(items) => {
            let ghost all = items@.map_values(|i: CodegraphItem| codegraph_hit(i));
            let mut hits: Vec<TextHit> = Vec::new();
            let mut k: usize = 0;
            while k < items.len() && k < MAX_HITS
                invariant
                    k <= items.len(),
                    k <= MAX_HITS,
                    all == items@.map_values(|i: CodegraphItem| codegraph_hit(i)),
                    hits@.map_values(|h: TextHit| hv(h)) == all.take(k as int),
                decreases items.len() - k,
            {
                let ghost before = hits@.map_values(|h: TextHit| hv(h));
                hits.push(codegraph_hit_exec(&items[k]));
                assert(hits@.map_values(|h: TextHit| hv(h)) =~= before.push(all[k as int]));
                assert(all.take(k + 1) =~= all.take(k as int).push(all[k as int]));
                k += 1;
            }
            assert(hits@.map_values(|h: TextHit| hv(h)) =~= first_n(all, 30)) by {
                if all.len() <= 30 {
                    assert(all.take(k as int) =~= all);
                }
            }
            GraphImpact::Ready { backend: CODEGRAPH, hits }
        },
    }
}

// ---------------------------------------------------------------------------
// codebase-memory-mcp helpers
// ---------------------------------------------------------------------------

pub open spec fn regex_special(c: char) -> bool {
    contains("\\.^$|?*+()[]{}"@, seq![c])
}

/// A literal escaped for a regex: a backslash before each metacharacter.
pub open spec fn regex_escape(s: Seq<char>) -> Seq<char>
    decreases s.len(),
{
    if s.len() == 0 {
        seq![]
    } else {
        regex_escape(s.drop_last()) + if regex_special(s.last()) { seq!['\\', s.last()] } else { seq![s.last()] }
    }
}

/// Escapes a literal so it can be embedded in a name/qn pattern.
pub fn regex_literal(s: &str) -> (r: String)
    ensures
        r@ == regex_escape(s@),
{
    let v = chars_of(s);
    let specials = chars_of("\\.^$|?*+()[]{}");
    let mut out = String::new();
    let mut i: usize = 0;
    assert(v@.take(0) =~= seq![]);
    while i < v.len()
        invariant
            i <= v.len(),
            v@ == s@,
            specials@ == "\\.^$|?*+()[]{}"@,
            out@ == regex_escape(v@.take(i as int)),
        decreases v.len() - i,
    {
        let c = v[i];
        assert(v@.take(i + 1).drop_last() =~= v@.take(i as int));
        assert(v@.take(i + 1).last() == c);
        let cv = vec![c];
        if crate::text::find_exec(&specials, &cv, 0).is_some() {
            push_char(&mut out, '\\');
        }
        push_char(&mut out, c);
        proof {
            assert(cv@ =~= seq![c]);
        }
        i += 1;
    }
    assert(v@.take(i as int) =~= v@);
    out
}

/// Exact-match pattern for literals: `^(a|b)$`, each escaped.
pub open spec fn exact_pattern_spec(names: Seq<Seq<char>>) -> Seq<char> {
    "^("@ + join(names.map_values(|n: Seq<char>| regex_escape(n)), "|"@) + ")$"@
}

pub fn exact_name_pattern(names: &Vec<String>) -> (r: String)
    ensures
        r@ == exact_pattern_spec(names.deep_view()),
{
    let mut alts: Vec<String> = Vec::new();
    let mut i: usize = 0;
    while i < names.len()
        invariant
            i <= names.len(),
            alts.deep_view() == names.deep_view().take(i as int).map_values(|n: Seq<char>| regex_escape(n)),
        decreases names.len() - i,
    {
        let ghost before = alts.deep_view();
        alts.push(regex_literal(names[i].as_str()));
        assert(alts.deep_view() =~= before.push(regex_escape(names.deep_view()[i as int])));
        assert(names.deep_view().take(i + 1).map_values(|n: Seq<char>| regex_escape(n))
            =~= names.deep_view().take(i as int).map_values(|n: Seq<char>| regex_escape(n)).push(regex_escape(names.deep_view()[i as int])));
        i += 1;
    }
    assert(names.deep_view().take(i as int) =~= names.deep_view());
    let mut s = string_from("^(");
    push_str(&mut s, join_strs(&alts, "|").as_str());
    push_str(&mut s, ")$");
    s
}

/// Start line of a `lines` cell such as `105-185` (at least 1).
pub open spec fn start_line_spec(cell: Seq<char>) -> u64 {
    match parse_u64_spec(trim(split_on(cell, '-')[0])) {
        Some(n) => if n >= 1 { n } else { 1 },
        None => 1,
    }
}

pub fn start_line(cell: &str) -> (r: u64)
    ensures
        r == start_line_spec(cell@),
{
    let parts = split_chars(&chars_of(cell), '-');
    proof {
        crate::text::lemma_split_nonempty(cell@, '-');
    }
    assert(parts@.map_values(|p: Vec<char>| p@)[0] == parts@[0]@);
    let first = string_of(&parts[0]);
    match parse_u64(trim_string(first.as_str()).as_str()) {
        Some(n) => if n >= 1 { n } else { 1 },
        None => 1,
    }
}

/// Coverage serves the scope when a row for exactly that path recorded no
/// issue and is not missing from the index.
pub open spec fn coverage_spec(rows: Seq<(String, String, String)>, scope: Seq<char>) -> bool {
    exists|i: int| 0 <= i < rows.len() && (#[trigger] rows[i]).0@ == scope && rows[i].1@ == "no_recorded_issue"@ && rows[i].2@ != "missing"@
}

/// `rows` are the `(path, status, freshness)` entries of
/// `check_index_coverage`.
pub fn coverage_serves_scope(rows: &Vec<(String, String, String)>, scope: &str) -> (r: bool)
    ensures
        r == coverage_spec(rows@, scope@),
{
    let mut i: usize = 0;
    while i < rows.len()
        invariant
            i <= rows.len(),
            forall|k: int| 0 <= k < i ==> !((#[trigger] rows@[k]).0@ == scope@ && rows@[k].1@ == "no_recorded_issue"@ && rows@[k].2@ != "missing"@),
        decreases rows.len() - i,
    {
        let r = &rows[i];
        if same_str(r.0.as_str(), scope) && same_str(r.1.as_str(), "no_recorded_issue") && !same_str(r.2.as_str(), "missing") {
            return true;
        }
        i += 1;
    }
    false
}

/// A qualified name from a group prefix and a row name.
pub open spec fn qn_spec(prefix: Seq<char>, name: Seq<char>) -> Seq<char> {
    if prefix.len() == 0 { name } else { prefix + "."@ + name }
}

pub fn qn_of(prefix: &str, name: &str) -> (r: String)
    ensures
        r@ == qn_spec(prefix@, name@),
{
    if prefix.is_empty() {
        string_from(name)
    } else {
        let mut s = string_from(prefix);
        push_str(&mut s, ".");
        push_str(&mut s, name);
        s
    }
}

/// The last `.`-separated piece of a qualified name (a node's name when
/// the answer gives none).
pub open spec fn name_from_qn_spec(qn: Seq<char>) -> Seq<char> {
    split_on(qn, '.').last()
}

pub fn name_from_qn(qn: &str) -> (r: String)
    ensures
        r@ == name_from_qn_spec(qn@),
{
    let parts = split_chars(&chars_of(qn), '.');
    proof {
        crate::text::lemma_split_nonempty(qn@, '.');
    }
    let n = parts.len();
    assert(parts@.map_values(|p: Vec<char>| p@)[n - 1] == parts@[n - 1]@);
    string_of(&parts[n - 1])
}

/// A node of the codebase-memory graph.
#[derive(Debug, Clone)]
pub struct CbmNode {
    pub name: String,
    pub qn: String,
    pub label: String,
    pub file: String,
    pub line: u64,
}

pub type NodeView = (Seq<char>, Seq<char>, Seq<char>, Seq<char>, u64);

pub open spec fn nv(n: CbmNode) -> NodeView {
    (n.name@, n.qn@, n.label@, n.file@, n.line)
}

/// The index of the first column named `name` (`-1` when none is).
pub open spec fn column_index(cols: Seq<Seq<char>>, name: Seq<char>) -> int
    decreases cols.len(),
{
    if cols.len() == 0 {
        -1
    } else {
        let before = column_index(cols.drop_last(), name);
        if before >= 0 {
            before
        } else if cols.last() == name {
            cols.len() - 1
        } else {
            -1
        }
    }
}

/// The text of `row` under the first column named `name`; empty when there
/// is no such column, the row is shorter, or the cell is not text.
pub open spec fn cell_spec(cols: Seq<Seq<char>>, row: Seq<Option<Seq<char>>>, name: Seq<char>) -> Seq<char> {
    let i = column_index(cols, name);
    if 0 <= i < row.len() {
        match row[i] {
            Some(t) => t,
            None => seq![],
        }
    } else {
        seq![]
    }
}

/// A node of a `search_graph` table row: columns found by name; a row
/// without a name takes the last piece of its qualified name.
pub open spec fn table_node(cols: Seq<Seq<char>>, row: Seq<Option<Seq<char>>>) -> NodeView {
    let name = cell_spec(cols, row, "name"@);
    let qn = cell_spec(cols, row, "qn"@);
    (if name.len() == 0 { name_from_qn_spec(qn) } else { name }, qn, cell_spec(cols, row, "label"@),
        cell_spec(cols, row, "file"@), start_line_spec(cell_spec(cols, row, "lines"@)))
}

pub open spec fn graph_nodes_spec(cols: Seq<Seq<char>>, rows: Seq<Seq<Option<Seq<char>>>>) -> Seq<NodeView> {
    rows.map_values(|r: Seq<Option<Seq<char>>>| table_node(cols, r))
}

/// A node of a grouped `search_graph` row: the qualified name joins the
/// group's prefix and the row's name; the file is the group's.
pub open spec fn group_node(cols: Seq<Seq<char>>, prefix: Seq<char>, file: Seq<char>, row: Seq<Option<Seq<char>>>) -> NodeView {
    let name = cell_spec(cols, row, "name"@);
    (name, qn_spec(prefix, name), cell_spec(cols, row, "label"@), file, start_line_spec(cell_spec(cols, row, "lines"@)))
}

pub open spec fn group_nodes_spec(cols: Seq<Seq<char>>, prefix: Seq<char>, file: Seq<char>, rows: Seq<Seq<Option<Seq<char>>>>) -> Seq<NodeView> {
    rows.map_values(|r: Seq<Option<Seq<char>>>| group_node(cols, prefix, file, r))
}

fn column_index_exec(cols: &Vec<String>, name: &str) -> (r: Option<usize>)
    ensures
        match r {
            Some(i) => i < cols.len() && column_index(cols.deep_view(), name@) == i as int,
            None => column_index(cols.deep_view(), name@) == -1,
        },
{
    let ghost cv = cols.deep_view();
    let mut i: usize = 0;
    while i < cols.len()
        invariant
            i <= cols.len(),
            cv == cols.deep_view(),
            column_index(cv.take(i as int), name@) == -1,
        decreases cols.len() - i,
    {
        assert(cv.take(i + 1).drop_last() =~= cv.take(i as int));
        if same_str(cols[i].as_str(), name) {
            assert(cv.take(i + 1).last() == cv[i as int]);
            proof {
                lemma_column_index_prefix(cv, name@, i + 1);
            }
            return Some(i);
        }
        i += 1;
    }
    assert(cv.take(i as int) =~= cv);
    None
}

/// A column found in a prefix of the columns is the first one overall.
proof fn lemma_column_index_prefix(cols: Seq<Seq<char>>, name: Seq<char>, k: int)
    requires
        0 <= k <= cols.len(),
        column_index(cols.take(k), name) >= 0,
    ensures
        column_index(cols, name) == column_index(cols.take(k), name),
    decreases cols.len() - k,
{
    if k < cols.len() {
        assert(cols.take(k + 1).drop_last() =~= cols.take(k));
        lemma_column_index_prefix(cols, name, k + 1);
    } else {
        assert(cols.take(k) =~= cols);
    }
}

fn cell(cols: &Vec<String>, row: &Vec<Option<String>>, name: &str) -> (r: String)
    ensures
        r@ == cell_spec(cols.deep_view(), row.deep_view(), name@),
{
    match column_index_exec(cols, name) {
        Some(i) => {
            if i < row.len() {
                assert(row.deep_view()[i as int] == row@[i as int].deep_view());
                match &row[i] {
                    Some(t) => t.clone(),
                    None => String::new(),
                }
            } else {
                String::new()
            }
        },
        None => String::new(),
    }
}

/// The nodes of a `search_graph` answer in table form: `columns` are its
/// `cols` and each row holds the text of each cell (`None` for one that is
/// not text).
pub fn graph_nodes(columns: &Vec<String>, rows: &Vec<Vec<Option<String>>>) -> (r: Vec<CbmNode>)
    ensures
        nodes_view(r) == graph_nodes_spec(columns.deep_view(), rows.deep_view()),
{
    let ghost rv = rows.deep_view();
    let mut out: Vec<CbmNode> = Vec::new();
    let mut i: usize = 0;
    while i < rows.len()
        invariant
            i <= rows.len(),
            rv == rows.deep_view(),
            nodes_view(out) == graph_nodes_spec(columns.deep_view(), rv.take(i as int)),
        decreases rows.len() - i,
    {
        let row = &rows[i];
        assert(rv[i as int] == row.deep_view());
        let name = cell(columns, row, "name");
        let qn = cell(columns, row, "qn");
        proof {
            reveal_strlit("");
            assert(""@ =~= Seq::<char>::empty());
            if name@.len() == 0 {
                assert(name@ =~= ""@);
            }
        }
        let node = CbmNode {
            name: if same_str(name.as_str(), "") { name_from_qn(qn.as_str()) } else { name },
            qn,
            label: cell(columns, row, "label"),
            file: cell(columns, row, "file"),
            line: start_line(cell(columns, row, "lines").as_str()),
        };
        let ghost before = nodes_view(out);
        out.push(node);
        assert(nodes_view(out) =~= before.push(table_node(columns.deep_view(), rv[i as int])));
        assert(graph_nodes_spec(columns.deep_view(), rv.take(i + 1)) =~= graph_nodes_spec(columns.deep_view(), rv.take(i as int)).push(
            table_node(columns.deep_view(), rv[i as int])));
        i += 1;
    }
    assert(rv.take(i as int) =~= rv);
    out
}

/// The nodes of one group of a `search_graph` answer in grouped form, with
/// the group's `qn_prefix` and `file`.
pub fn group_nodes(columns: &Vec<String>, prefix: &str, file: &str, rows: &Vec<Vec<Option<String>>>) -> (r: Vec<CbmNode>)
    ensures
        nodes_view(r) == group_nodes_spec(columns.deep_view(), prefix@, file@, rows.deep_view()),
{
    let ghost rv = rows.deep_view();
    let mut out: Vec<CbmNode> = Vec::new();
    let mut i: usize = 0;
    while i < rows.len()
        invariant
            i <= rows.len(),
            rv == rows.deep_view(),
            nodes_view(out) == group_nodes_spec(columns.deep_view(), prefix@, file@, rv.take(i as int)),
        decreases rows.len() - i,
    {
        let row = &rows[i];
        assert(rv[i as int] == row.deep_view());
        let name = cell(columns, row, "name");
        let node = CbmNode {
            qn: qn_of(prefix, name.as_str()),
            name,
            label: cell(columns, row, "label"),
            file: string_from(file),
            line: start_line(cell(columns, row, "lines").as_str()),
        };
        let ghost before = nodes_view(out);
        out.push(node);
        assert(nodes_view(out) =~= before.push(group_node(columns.deep_view(), prefix@, file@, rv[i as int])));
        assert(group_nodes_spec(columns.deep_view(), prefix@, file@, rv.take(i + 1)) =~= group_nodes_spec(
            columns.deep_view(), prefix@, file@, rv.take(i as int)).push(group_node(columns.deep_view(), prefix@, file@, rv[i as int])));
        i += 1;
    }
    assert(rv.take(i as int) =~= rv);
    out
}

/// The name a `trace_path` row gives: its cell under the first column
/// named `name` (the first column when none is), when that cell is
/// non-empty text.
pub open spec fn trace_name(cols: Seq<Seq<char>>, row: Seq<Option<Seq<char>>>) -> Option<Seq<char>> {
    let i = column_index(cols, "name"@);
    let k = if i >= 0 { i } else { 0 };
    if 0 <= k < row.len() {
        match row[k] {
            Some(t) => if t.len() > 0 { Some(t) } else { None },
            None => None,
        }
    } else {
        None
    }
}

/// The related qualified names of one group of a `trace_path` answer,
/// each tagged with whether it is a caller.
pub open spec fn trace_group_spec(cols: Seq<Seq<char>>, prefix: Seq<char>, rows: Seq<Seq<Option<Seq<char>>>>, caller: bool) -> Seq<(Seq<char>, bool)>
    decreases rows.len(),
{
    if rows.len() == 0 {
        seq![]
    } else {
        let rest = trace_group_spec(cols, prefix, rows.drop_last(), caller);
        match trace_name(cols, rows.last()) {
            Some(n) => rest.push((qn_spec(prefix, n), caller)),
            None => rest,
        }
    }
}

pub fn trace_group(columns: &Vec<String>, prefix: &str, rows: &Vec<Vec<Option<String>>>, caller: bool) -> (r: Vec<(String, bool)>)
    ensures
        r@.map_values(|p: (String, bool)| (p.0@, p.1)) == trace_group_spec(columns.deep_view(), prefix@, rows.deep_view(), caller),
{
    let ghost rv = rows.deep_view();
    let k: usize = match column_index_exec(columns, "name") {
        Some(i) => i,
        None => 0,
    };
    let mut out: Vec<(String, bool)> = Vec::new();
    let mut i: usize = 0;
    while i < rows.len()
        invariant
            i <= rows.len(),
            rv == rows.deep_view(),
            k as int == (if column_index(columns.deep_view(), "name"@) >= 0 { column_index(columns.deep_view(), "name"@) } else { 0 }),
            out@.map_values(|p: (String, bool)| (p.0@, p.1)) == trace_group_spec(columns.deep_view(), prefix@, rv.take(i as int), caller),
        decreases rows.len() - i,
    {
        let row = &rows[i];
        assert(rv[i as int] == row.deep_view());
        assert(rv.take(i + 1).drop_last() =~= rv.take(i as int));
        assert(rv.take(i + 1).last() == rv[i as int]);
        let ghost before = out@.map_values(|p: (String, bool)| (p.0@, p.1));
        if k < row.len() {
            assert(row.deep_view()[k as int] == row@[k as int].deep_view());
            match &row[k] {
                Some(name) => {
                    if !same_str(name.as_str(), "") {
                        proof {
                            reveal_strlit("");
                            assert(""@ =~= Seq::<char>::empty());
                            if name@.len() == 0 {
                                assert(name@ =~= ""@);
                            }
                        }
                        out.push((qn_of(prefix, name.as_str()), caller));
                        assert(out@.map_values(|p: (String, bool)| (p.0@, p.1)) =~= before.push((qn_spec(prefix@, name@), caller)));
                    } else {
                        proof {
                            reveal_strlit("");
                            assert(""@ =~= Seq::<char>::empty());
                        }
                    }
                },
                None => {},
            }
        }
        i += 1;
    }
    assert(rv.take(i as int) =~= rv);
    out
}

/// `s` rearranged by `order`.
pub open spec fn permute<A>(s: Seq<A>, order: Seq<int>) -> Seq<A> {
    order.map_values(|i: int| s[i])
}

pub open spec fn node_key(n: NodeView) -> crate::order::Triple {
    (n.3, n.4, n.1)
}

/// The nodes named (or qualified-named) exactly `symbol`, ordered by
/// (file, line, qualified name).
pub open spec fn symbols_spec(nodes: Seq<NodeView>, symbol: Seq<char>) -> Seq<NodeView> {
    let picked = nodes.filter(|n: NodeView| n.0 == symbol || n.1 == symbol);
    permute(picked, crate::order::triple_order(picked.map_values(|n: NodeView| node_key(n))))
}

fn clone_node(n: &CbmNode) -> (r: CbmNode)
    ensures
        nv(r) == nv(*n),
{
    CbmNode { name: n.name.clone(), qn: n.qn.clone(), label: n.label.clone(), file: n.file.clone(), line: n.line }
}

fn reorder_nodes(items: &Vec<CbmNode>, order: &Vec<usize>) -> (r: Vec<CbmNode>)
    requires
        forall|k: int| 0 <= k < order@.len() ==> order@[k] < items@.len(),
    ensures
        r@.map_values(|n: CbmNode| nv(n)) == permute(items@.map_values(|n: CbmNode| nv(n)), order@.map_values(|i: usize| i as int)),
{
    let ghost iv = items@.map_values(|n: CbmNode| nv(n));
    let ghost ov = order@.map_values(|i: usize| i as int);
    let mut r: Vec<CbmNode> = Vec::new();
    let mut k: usize = 0;
    while k < order.len()
        invariant
            k <= order.len(),
            forall|q: int| 0 <= q < order@.len() ==> order@[q] < items@.len(),
            iv == items@.map_values(|n: CbmNode| nv(n)),
            ov == order@.map_values(|i: usize| i as int),
            r@.map_values(|n: CbmNode| nv(n)) == permute(iv, ov.take(k as int)),
        decreases order.len() - k,
    {
        let ghost r0 = r@.map_values(|n: CbmNode| nv(n));
        r.push(clone_node(&items[order[k]]));
        assert(r@.map_values(|n: CbmNode| nv(n)) =~= r0.push(iv[order@[k as int] as int]));
        assert(permute(iv, ov.take(k + 1)) =~= permute(iv, ov.take(k as int)).push(iv[ov[k as int]]));
        k += 1;
    }
    assert(ov.take(k as int) =~= ov);
    r
}

/// The nodes that resolve the symbol (see [`symbols_spec`]).
pub fn select_symbols(nodes: &Vec<CbmNode>, symbol: &str) -> (r: Vec<CbmNode>)
    ensures
        r@.map_values(|n: CbmNode| nv(n)) == symbols_spec(nodes@.map_values(|n: CbmNode| nv(n)), symbol@),
{
    let ghost all = nodes@.map_values(|n: CbmNode| nv(n));
    let ghost pred = |n: NodeView| n.0 == symbol@ || n.1 == symbol@;
    let mut picked: Vec<CbmNode> = Vec::new();
    let mut i: usize = 0;
    assert(all.take(0).filter(pred) =~= seq![]) by {
        reveal(Seq::filter);
    }
    while i < nodes.len()
        invariant
            i <= nodes.len(),
            all == nodes@.map_values(|n: CbmNode| nv(n)),
            pred == (|n: NodeView| n.0 == symbol@ || n.1 == symbol@),
            picked@.map_values(|n: CbmNode| nv(n)) == all.take(i as int).filter(pred),
        decreases nodes.len() - i,
    {
        let ghost before = picked@.map_values(|n: CbmNode| nv(n));
        assert(all.take(i + 1) =~= all.take(i as int).push(all[i as int]));
        proof {
            all.take(i as int).lemma_filter_push(all[i as int], pred);
        }
        if same_str(nodes[i].name.as_str(), symbol) || same_str(nodes[i].qn.as_str(), symbol) {
            picked.push(clone_node(&nodes[i]));
            assert(picked@.map_values(|n: CbmNode| nv(n)) =~= before.push(all[i as int]));
        }
        i += 1;
    }
    assert(all.take(i as int) =~= all);
    let ghost pv = picked@.map_values(|n: CbmNode| nv(n));
    let mut keys: Vec<(Vec<char>, u64, Vec<char>)> = Vec::new();
    let mut j: usize = 0;
    while j < picked.len()
        invariant
            j <= picked.len(),
            pv == picked@.map_values(|n: CbmNode| nv(n)),
            keys@.map_values(|k: (Vec<char>, u64, Vec<char>)| crate::order::triple_view(k)) == pv.take(j as int).map_values(|n: NodeView| node_key(n)),
        decreases picked.len() - j,
    {
        let ghost before = keys@.map_values(|k: (Vec<char>, u64, Vec<char>)| crate::order::triple_view(k));
        keys.push((chars_of(picked[j].file.as_str()), picked[j].line, chars_of(picked[j].qn.as_str())));
        assert(keys@.map_values(|k: (Vec<char>, u64, Vec<char>)| crate::order::triple_view(k)) =~= before.push(node_key(pv[j as int])));
        assert(pv.take(j + 1).map_values(|n: NodeView| node_key(n)) =~= pv.take(j as int).map_values(|n: NodeView| node_key(n)).push(node_key(pv[j as int])));
        j += 1;
    }
    assert(pv.take(j as int) =~= pv);
    let order = crate::order::triple_order_exec(&keys);
    reorder_nodes(&picked, &order)
}

/// The roles a related node plays for the queried symbol.
#[derive(Debug, Clone)]
pub struct RoleEntry {
    pub qn: String,
    pub caller: bool,
    pub callee: bool,
}

pub type RoleView = (Seq<char>, bool, bool);

pub open spec fn rv(r: RoleEntry) -> RoleView {
    (r.qn@, r.caller, r.callee)
}

pub open spec fn has_role(rels: Seq<(Seq<char>, bool)>, qn: Seq<char>, caller: bool) -> bool {
    exists|i: int| 0 <= i < rels.len() && (#[trigger] rels[i]).0 == qn && rels[i].1 == caller
}

/// One entry per related qualified name, in name order, with the roles it
/// plays (`rels`: qualified name and whether it is a caller).
pub open spec fn roles_spec(rels: Seq<(Seq<char>, bool)>) -> Seq<RoleView> {
    crate::check::distinct_sorted(rels.map_values(|r: (Seq<char>, bool)| r.0)).map_values(
        |q: Seq<char>| (q, has_role(rels, q, true), has_role(rels, q, false)))
}

pub open spec fn rels_view(rels: Seq<(String, bool)>) -> Seq<(Seq<char>, bool)> {
    rels.map_values(|r: (String, bool)| (r.0@, r.1))
}

fn role_flag(rels: &Vec<(String, bool)>, qn: &str, caller: bool) -> (r: bool)
    ensures
        r == has_role(rels_view(rels@), qn@, caller),
{
    let ghost v = rels_view(rels@);
    let mut i: usize = 0;
    while i < rels.len()
        invariant
            i <= rels.len(),
            v == rels_view(rels@),
            forall|k: int| 0 <= k < i ==> !((#[trigger] v[k]).0 == qn@ && v[k].1 == caller),
        decreases rels.len() - i,
    {
        if same_str(rels[i].0.as_str(), qn) && rels[i].1 == caller {
            assert(v[i as int].0 == qn@ && v[i as int].1 == caller);
            return true;
        }
        i += 1;
    }
    false
}

/// The roles of the related nodes (see [`roles_spec`]).
pub fn roles_of(rels: &Vec<(String, bool)>) -> (r: Vec<RoleEntry>)
    ensures
        r@.map_values(|e: RoleEntry| rv(e)) == roles_spec(rels_view(rels@)),
{
    let ghost v = rels_view(rels@);
    let mut qns: Vec<String> = Vec::new();
    let mut i: usize = 0;
    while i < rels.len()
        invariant
            i <= rels.len(),
            v == rels_view(rels@),
            qns.deep_view() == v.take(i as int).map_values(|r: (Seq<char>, bool)| r.0),
        decreases rels.len() - i,
    {
        let ghost before = qns.deep_view();
        qns.push(rels[i].0.clone());
        assert(qns.deep_view() =~= before.push(v[i as int].0));
        assert(v.take(i + 1).map_values(|r: (Seq<char>, bool)| r.0) =~= v.take(i as int).map_values(|r: (Seq<char>, bool)| r.0).push(v[i as int].0));
        i += 1;
    }
    assert(v.take(i as int) =~= v);
    let uniq = crate::check::distinct_sorted_exec(&qns);
    let ghost u = uniq.deep_view();
    let mut out: Vec<RoleEntry> = Vec::new();
    let mut j: usize = 0;
    while j < uniq.len()
        invariant
            j <= uniq.len(),
            v == rels_view(rels@),
            u == uniq.deep_view(),
            out@.map_values(|e: RoleEntry| rv(e)) == u.take(j as int).map_values(|q: Seq<char>| (q, has_role(v, q, true), has_role(v, q, false))),
        decreases uniq.len() - j,
    {
        let ghost before = out@.map_values(|e: RoleEntry| rv(e));
        let q = uniq[j].as_str();
        let caller = role_flag(rels, q, true);
        let callee = role_flag(rels, q, false);
        out.push(RoleEntry { qn: uniq[j].clone(), caller, callee });
        assert(out@.map_values(|e: RoleEntry| rv(e)) =~= before.push((u[j as int], caller, callee)));
        assert(u.take(j + 1).map_values(|q: Seq<char>| (q, has_role(v, q, true), has_role(v, q, false)))
            =~= u.take(j as int).map_values(|q: Seq<char>| (q, has_role(v, q, true), has_role(v, q, false))).push((u[j as int], caller, callee)));
        j += 1;
    }
    assert(u.take(j as int) =~= u);
    out
}

/// The entry for a qualified name, if any.
pub open spec fn role_of(roles: Seq<RoleView>, qn: Seq<char>) -> Option<RoleView>
    decreases roles.len(),
{
    if roles.len() == 0 {
        None
    } else if roles[0].0 == qn {
        Some(roles[0])
    } else {
        role_of(roles.drop_first(), qn)
    }
}

fn role_of_exec(roles: &Vec<RoleEntry>, qn: &str) -> (r: Option<(bool, bool)>)
    ensures
        match r {
            Some((a, b)) => role_of(roles@.map_values(|e: RoleEntry| rv(e)), qn@) == Some((qn@, a, b)),
            None => role_of(roles@.map_values(|e: RoleEntry| rv(e)), qn@) is None,
        },
{
    let ghost v = roles@.map_values(|e: RoleEntry| rv(e));
    let mut i: usize = 0;
    assert(v.skip(0) =~= v);
    while i < roles.len()
        invariant
            i <= roles.len(),
            v == roles@.map_values(|e: RoleEntry| rv(e)),
            role_of(v, qn@) == role_of(v.skip(i as int), qn@),
        decreases roles.len() - i,
    {
        assert(v.skip(i as int).drop_first() =~= v.skip(i + 1));
        assert(v.skip(i as int)[0] == v[i as int]);
        if same_str(roles[i].qn.as_str(), qn) {
            return Some((roles[i].caller, roles[i].callee));
        }
        i += 1;
    }
    assert(v.skip(i as int) =~= Seq::<RoleView>::empty());
    None
}

/// The related nodes the answer resolved: those with a role.
pub open spec fn related_spec(nodes: Seq<NodeView>, roles: Seq<RoleView>) -> Seq<NodeView> {
    nodes.filter(|n: NodeView| role_of(roles, n.1) is Some)
}

pub fn related_nodes(nodes: &Vec<CbmNode>, roles: &Vec<RoleEntry>) -> (r: Vec<CbmNode>)
    ensures
        r@.map_values(|n: CbmNode| nv(n)) == related_spec(nodes@.map_values(|n: CbmNode| nv(n)), roles@.map_values(|e: RoleEntry| rv(e))),
{
    let ghost all = nodes@.map_values(|n: CbmNode| nv(n));
    let ghost rs = roles@.map_values(|e: RoleEntry| rv(e));
    let ghost pred = |n: NodeView| role_of(rs, n.1) is Some;
    let mut out: Vec<CbmNode> = Vec::new();
    let mut i: usize = 0;
    assert(all.take(0).filter(pred) =~= seq![]) by {
        reveal(Seq::filter);
    }
    while i < nodes.len()
        invariant
            i <= nodes.len(),
            all == nodes@.map_values(|n: CbmNode| nv(n)),
            rs == roles@.map_values(|e: RoleEntry| rv(e)),
            pred == (|n: NodeView| role_of(rs, n.1) is Some),
            out@.map_values(|n: CbmNode| nv(n)) == all.take(i as int).filter(pred),
        decreases nodes.len() - i,
    {
        let ghost before = out@.map_values(|n: CbmNode| nv(n));
        assert(all.take(i + 1) =~= all.take(i as int).push(all[i as int]));
        proof {
            all.take(i as int).lemma_filter_push(all[i as int], pred);
        }
        if role_of_exec(roles, nodes[i].qn.as_str()).is_some() {
            out.push(clone_node(&nodes[i]));
            assert(out@.map_values(|n: CbmNode| nv(n)) =~= before.push(all[i as int]));
        }
        i += 1;
    }
    assert(all.take(i as int) =~= all);
    out
}

/// The first node of each qualified name, order kept.
pub open spec fn first_by_qn(nodes: Seq<NodeView>) -> Seq<NodeView>
    decreases nodes.len(),
{
    if nodes.len() == 0 {
        seq![]
    } else {
        let rest = first_by_qn(nodes.drop_last());
        if (exists|i: int| 0 <= i < rest.len() && (#[trigger] rest[i]).1 == nodes.last().1) { rest } else { rest.push(nodes.last()) }
    }
}

/// `, callee+caller`, `, callee`, `, caller`, or nothing.
pub open spec fn kinds_text(role: Option<RoleView>) -> Seq<char> {
    match role {
        Some((_, caller, callee)) => if caller && callee {
            ", callee+caller"@
        } else if callee {
            ", callee"@
        } else if caller {
            ", caller"@
        } else {
            seq![]
        },
        None => seq![],
    }
}

pub open spec fn node_hit(n: NodeView, roles: Seq<RoleView>) -> HitView {
    (n.3, n.4, truncate_spec(n.0 + " ("@ + n.2 + kinds_text(role_of(roles, n.1)) + ")"@, 300))
}

/// The impact hits: one per in-scope qualified name among the symbol's
/// nodes then the related ones (its first node), with every role it plays,
/// ordered by (path, line, text), 30 at most.
pub open spec fn merged_spec(symbols: Seq<NodeView>, related: Seq<NodeView>, roles: Seq<RoleView>, scope: Seq<char>) -> Seq<HitView> {
    let nodes = first_by_qn((symbols + related).filter(|n: NodeView| in_scope_spec(n.3, scope)));
    let hits = nodes.map_values(|n: NodeView| node_hit(n, roles));
    first_n(permute(hits, crate::order::triple_order(hits)), 30)
}

proof fn lemma_first_by_qn_from(nodes: Seq<NodeView>)
    ensures
        forall|k: int| 0 <= k < first_by_qn(nodes).len() ==> nodes.contains(#[trigger] first_by_qn(nodes)[k]),
    decreases nodes.len(),
{
    if nodes.len() > 0 {
        let init = nodes.drop_last();
        lemma_first_by_qn_from(init);
        let rest = first_by_qn(init);
        let all = first_by_qn(nodes);
        assert forall|k: int| 0 <= k < all.len() implies nodes.contains(#[trigger] all[k]) by {
            if k < rest.len() {
                assert(all[k] == rest[k]);
                assert(init.contains(rest[k]));
                let j = choose|j: int| 0 <= j < init.len() && init[j] == rest[k];
                assert(nodes[j] == init[j]);
            } else {
                assert(all[k] == nodes[nodes.len() - 1]);
            }
        }
    }
}

/// Every impact hit built from the graph lies inside the search scope, and
/// there are at most 30.
pub proof fn lemma_merged_hits_in_scope(symbols: Seq<NodeView>, related: Seq<NodeView>, roles: Seq<RoleView>, scope: Seq<char>)
    ensures
        merged_spec(symbols, related, roles, scope).len() <= 30,
        forall|k: int| 0 <= k < merged_spec(symbols, related, roles, scope).len()
            ==> in_scope_spec((#[trigger] merged_spec(symbols, related, roles, scope)[k]).0, scope),
{
    let pred = |n: NodeView| in_scope_spec(n.3, scope);
    let filtered = (symbols + related).filter(pred);
    let nodes = first_by_qn(filtered);
    let hits = nodes.map_values(|n: NodeView| node_hit(n, roles));
    let order = crate::order::triple_order(hits);
    let perm = permute(hits, order);
    let out = merged_spec(symbols, related, roles, scope);
    crate::order::lemma_triple_order_indices(hits);
    lemma_first_by_qn_from(filtered);
    assert(out == first_n(perm, 30));
    assert forall|k: int| 0 <= k < out.len() implies in_scope_spec((#[trigger] out[k]).0, scope) by {
        assert(out[k] == perm[k]);
        let i = order[k];
        assert(0 <= i < hits.len());
        assert(perm[k] == hits[i]);
        assert(hits[i].0 == nodes[i].3);
        assert(filtered.contains(nodes[i]));
        let j = choose|j: int| 0 <= j < filtered.len() && filtered[j] == nodes[i];
        (symbols + related).lemma_filter_pred(pred, j);
    }
}

fn node_hit_exec(n: &CbmNode, roles: &Vec<RoleEntry>) -> (r: TextHit)
    ensures
        hv(r) == node_hit(nv(*n), roles@.map_values(|e: RoleEntry| rv(e))),
{
    let mut t = n.name.clone();
    push_str(&mut t, " (");
    push_str(&mut t, n.label.as_str());
    let kinds = match role_of_exec(roles, n.qn.as_str()) {
        Some((caller, callee)) => if caller && callee {
            ", callee+caller"
        } else if callee {
            ", callee"
        } else if caller {
            ", caller"
        } else {
            ""
        },
        None => "",
    };
    proof {
        reveal_strlit("");
    }
    push_str(&mut t, kinds);
    push_str(&mut t, ")");
    TextHit { path: n.file.clone(), line: n.line, text: truncate(t.as_str(), 300) }
}

fn reorder_hits(items: &Vec<TextHit>, order: &Vec<usize>) -> (r: Vec<TextHit>)
    requires
        forall|k: int| 0 <= k < order@.len() ==> order@[k] < items@.len(),
    ensures
        r@.map_values(|h: TextHit| hv(h)) == permute(items@.map_values(|h: TextHit| hv(h)), order@.map_values(|i: usize| i as int)),
{
    let ghost iv = items@.map_values(|h: TextHit| hv(h));
    let ghost ov = order@.map_values(|i: usize| i as int);
    let mut r: Vec<TextHit> = Vec::new();
    let mut k: usize = 0;
    while k < order.len()
        invariant
            k <= order.len(),
            forall|q: int| 0 <= q < order@.len() ==> order@[q] < items@.len(),
            iv == items@.map_values(|h: TextHit| hv(h)),
            ov == order@.map_values(|i: usize| i as int),
            r@.map_values(|h: TextHit| hv(h)) == permute(iv, ov.take(k as int)),
        decreases order.len() - k,
    {
        let ghost r0 = r@.map_values(|h: TextHit| hv(h));
        let h = &items[order[k]];
        r.push(TextHit { path: h.path.clone(), line: h.line, text: h.text.clone() });
        assert(r@.map_values(|h: TextHit| hv(h)) =~= r0.push(iv[order@[k as int] as int]));
        assert(permute(iv, ov.take(k + 1)) =~= permute(iv, ov.take(k as int)).push(iv[ov[k as int]]));
        k += 1;
    }
    assert(ov.take(k as int) =~= ov);
    r
}

/// The impact hits (see [`merged_spec`]).
pub fn merge_hits(symbols: &Vec<CbmNode>, related: &Vec<CbmNode>, roles: &Vec<RoleEntry>, scope: &str) -> (r: Vec<TextHit>)
    ensures
        r@.map_values(|h: TextHit| hv(h)) == merged_spec(symbols@.map_values(|n: CbmNode| nv(n)), related@.map_values(|n: CbmNode| nv(n)),
            roles@.map_values(|e: RoleEntry| rv(e)), scope@),
{
    let ghost chain = symbols@.map_values(|n: CbmNode| nv(n)) + related@.map_values(|n: CbmNode| nv(n));
    let ghost pred = |n: NodeView| in_scope_spec(n.3, scope@);
    let ghost rs = roles@.map_values(|e: RoleEntry| rv(e));
    let mut all: Vec<CbmNode> = Vec::new();
    let mut i: usize = 0;
    while i < symbols.len()
        invariant
            i <= symbols.len(),
            all@.map_values(|n: CbmNode| nv(n)) == symbols@.take(i as int).map_values(|n: CbmNode| nv(n)),
        decreases symbols.len() - i,
    {
        let ghost before = all@.map_values(|n: CbmNode| nv(n));
        all.push(clone_node(&symbols[i]));
        assert(all@.map_values(|n: CbmNode| nv(n)) =~= before.push(nv(symbols@[i as int])));
        assert(symbols@.take(i + 1).map_values(|n: CbmNode| nv(n)) =~= symbols@.take(i as int).map_values(|n: CbmNode| nv(n)).push(nv(symbols@[i as int])));
        i += 1;
    }
    let mut j: usize = 0;
    while j < related.len()
        invariant
            j <= related.len(),
            i == symbols.len(),
            all@.map_values(|n: CbmNode| nv(n)) == symbols@.take(i as int).map_values(|n: CbmNode| nv(n)) + related@.take(j as int).map_values(|n: CbmNode| nv(n)),
        decreases related.len() - j,
    {
        let ghost before = all@.map_values(|n: CbmNode| nv(n));
        all.push(clone_node(&related[j]));
        assert(all@.map_values(|n: CbmNode| nv(n)) =~= before.push(nv(related@[j as int])));
        assert(related@.take(j + 1).map_values(|n: CbmNode| nv(n)) =~= related@.take(j as int).map_values(|n: CbmNode| nv(n)).push(nv(related@[j as int])));
        j += 1;
    }
    assert(symbols@.take(i as int) =~= symbols@);
    assert(related@.take(j as int) =~= related@);
    let ghost av = all@.map_values(|n: CbmNode| nv(n));
    assert(av =~= chain);
    // keep in-scope nodes, first of each qualified name
    let mut kept: Vec<CbmNode> = Vec::new();
    let mut k: usize = 0;
    assert(av.take(0).filter(pred) =~= seq![]) by {
        reveal(Seq::filter);
    }
    assert(first_by_qn(seq![]) =~= Seq::<NodeView>::empty());
    while k < all.len()
        invariant
            k <= all.len(),
            av == all@.map_values(|n: CbmNode| nv(n)),
            pred == (|n: NodeView| in_scope_spec(n.3, scope@)),
            kept@.map_values(|n: CbmNode| nv(n)) == first_by_qn(av.take(k as int).filter(pred)),
        decreases all.len() - k,
    {
        let ghost f0 = av.take(k as int).filter(pred);
        let ghost before = kept@.map_values(|n: CbmNode| nv(n));
        assert(av.take(k + 1) =~= av.take(k as int).push(av[k as int]));
        proof {
            av.take(k as int).lemma_filter_push(av[k as int], pred);
        }
        if in_scope(all[k].file.as_str(), scope) {
            let ghost f1 = f0.push(av[k as int]);
            assert(f1.drop_last() =~= f0);
            let mut seen = false;
            let mut q: usize = 0;
            while q < kept.len()
                invariant
                    q <= kept.len(),
                    k < all.len(),
                    av == all@.map_values(|n: CbmNode| nv(n)),
                    before == kept@.map_values(|n: CbmNode| nv(n)),
                    !seen ==> forall|x: int| 0 <= x < q ==> (#[trigger] before[x]).1 != av[k as int].1,
                    seen ==> exists|x: int| 0 <= x < before.len() && (#[trigger] before[x]).1 == av[k as int].1,
                decreases kept.len() - q,
            {
                if same_str(kept[q].qn.as_str(), all[k].qn.as_str()) {
                    assert(before[q as int].1 == av[k as int].1);
                    seen = true;
                }
                q += 1;
            }
            if !seen {
                kept.push(clone_node(&all[k]));
                assert(kept@.map_values(|n: CbmNode| nv(n)) =~= before.push(av[k as int]));
            }
        }
        k += 1;
    }
    assert(av.take(k as int) =~= av);
    let ghost kv2 = kept@.map_values(|n: CbmNode| nv(n));
    // one hit per kept node
    let mut hits: Vec<TextHit> = Vec::new();
    let mut m: usize = 0;
    while m < kept.len()
        invariant
            m <= kept.len(),
            kv2 == kept@.map_values(|n: CbmNode| nv(n)),
            rs == roles@.map_values(|e: RoleEntry| rv(e)),
            hits@.map_values(|h: TextHit| hv(h)) == kv2.take(m as int).map_values(|n: NodeView| node_hit(n, rs)),
        decreases kept.len() - m,
    {
        let ghost before = hits@.map_values(|h: TextHit| hv(h));
        hits.push(node_hit_exec(&kept[m], roles));
        assert(hits@.map_values(|h: TextHit| hv(h)) =~= before.push(node_hit(kv2[m as int], rs)));
        assert(kv2.take(m + 1).map_values(|n: NodeView| node_hit(n, rs)) =~= kv2.take(m as int).map_values(|n: NodeView| node_hit(n, rs)).push(node_hit(kv2[m as int], rs)));
        m += 1;
    }
    assert(kv2.take(m as int) =~= kv2);
    let ghost hv_all = hits@.map_values(|h: TextHit| hv(h));
    // order by (path, line, text)
    let mut keys: Vec<(Vec<char>, u64, Vec<char>)> = Vec::new();
    let mut t: usize = 0;
    while t < hits.len()
        invariant
            t <= hits.len(),
            hv_all == hits@.map_values(|h: TextHit| hv(h)),
            keys@.map_values(|x: (Vec<char>, u64, Vec<char>)| crate::order::triple_view(x)) == hv_all.take(t as int),
        decreases hits.len() - t,
    {
        let ghost before = keys@.map_values(|x: (Vec<char>, u64, Vec<char>)| crate::order::triple_view(x));
        keys.push((chars_of(hits[t].path.as_str()), hits[t].line, chars_of(hits[t].text.as_str())));
        assert(keys@.map_values(|x: (Vec<char>, u64, Vec<char>)| crate::order::triple_view(x)) =~= before.push(hv_all[t as int]));
        assert(hv_all.take(t + 1) =~= hv_all.take(t as int).push(hv_all[t as int]));
        t += 1;
    }
    assert(hv_all.take(t as int) =~= hv_all);
    let order = crate::order::triple_order_exec(&keys);
    let sorted = reorder_hits(&hits, &order);
    let ghost sv2 = sorted@.map_values(|h: TextHit| hv(h));
    let mut out: Vec<TextHit> = Vec::new();
    let mut c: usize = 0;
    while c < sorted.len() && c < MAX_HITS
        invariant
            c <= sorted.len(),
            c <= MAX_HITS,
            sv2 == sorted@.map_values(|h: TextHit| hv(h)),
            out@.map_values(|h: TextHit| hv(h)) == sv2.take(c as int),
        decreases sorted.len() - c,
    {
        let ghost before = out@.map_values(|h: TextHit| hv(h));
        let h = &sorted[c];
        out.push(TextHit { path: h.path.clone(), line: h.line, text: h.text.clone() });
        assert(out@.map_values(|h: TextHit| hv(h)) =~= before.push(sv2[c as int]));
        assert(sv2.take(c + 1) =~= sv2.take(c as int).push(sv2[c as int]));
        c += 1;
    }
    assert(out@.map_values(|h: TextHit| hv(h)) =~= first_n(sv2, 30)) by {
        if sv2.len() <= 30 {
            assert(sv2.take(c as int) =~= sv2);
        }
    }
    out
}

// ---------------------------------------------------------------------------
// The codebase-memory-mcp impact pipeline
// ---------------------------------------------------------------------------

/// Where the read-only codebase-memory-mcp pipeline stands: project
/// discovery (exact root match, 50 per page, 5 pages at most), index
/// health, scope coverage (scoped queries only), symbol resolution, its
/// relations, and the lookup of the related nodes. Nothing indexes.
#[derive(Debug, Clone)]
pub enum CbmStage {
    Projects { page: u64 },
    Status { project: String },
    Coverage { project: String },
    Symbol { project: String },
    Trace { project: String, symbols: Vec<CbmNode> },
    Related { project: String, symbols: Vec<CbmNode>, roles: Vec<RoleEntry> },
}

/// The answer to the stage's `codebase-memory-mcp cli` call, as read by
/// the caller: a timeout, a failed call (non-zero exit, error envelope or
/// no JSON document, or an answer of another shape), or the facts of the
/// document.
#[derive(Debug, Clone)]
pub enum CbmReply {
    Timeout,
    Failed,
    /// `list_projects`: the project whose root is exactly this repository
    /// root, if listed on this page, and whether more pages follow.
    Projects { found: Option<String>, has_more: bool },
    /// `index_status`: ready, and for exactly this root.
    Status { ready: bool, same_root: bool },
    /// `check_index_coverage`: `(path, status, freshness)` rows.
    Coverage(Vec<(String, String, String)>),
    /// `search_graph`: the nodes.
    Nodes(Vec<CbmNode>),
    /// `trace_path`: related qualified names, and whether each is a caller.
    Trace(Vec<(String, bool)>),
}

/// The next call to make (its `cli` arguments), or the result.
#[derive(Debug, Clone)]
pub enum CbmStep {
    Ask { stage: CbmStage, args: Vec<String> },
    Done(GraphImpact),
}

pub open spec fn projects_args(page: nat) -> Seq<Seq<char>> {
    seq!["list_projects"@, "--format"@, "json"@, "--limit"@, "50"@, "--offset"@, crate::text::decimal(page * 50)]
}

pub open spec fn status_args(p: Seq<char>) -> Seq<Seq<char>> {
    seq!["index_status"@, "--project"@, p, "--format"@, "json"@]
}

pub open spec fn coverage_args(p: Seq<char>, scope: Seq<char>) -> Seq<Seq<char>> {
    seq!["check_index_coverage"@, "--project"@, p, "--paths"@, scope, "--format"@, "json"@]
}

pub open spec fn symbol_args(p: Seq<char>, symbol: Seq<char>) -> Seq<Seq<char>> {
    seq!["search_graph"@, "--project"@, p, "--name-pattern"@, exact_pattern_spec(seq![symbol]), "--format"@, "json"@, "--limit"@, "5"@]
}

pub open spec fn trace_args(qn: Seq<char>, p: Seq<char>) -> Seq<Seq<char>> {
    seq!["trace_path"@, "--function-name"@, qn, "--project"@, p, "--direction"@, "both"@, "--depth"@, "1"@, "--limit"@, "20"@, "--format"@, "json"@]
}

pub open spec fn related_args(p: Seq<char>, qns: Seq<Seq<char>>) -> Seq<Seq<char>> {
    seq!["search_graph"@, "--project"@, p, "--qn-pattern"@, exact_pattern_spec(qns), "--format"@, "json"@, "--limit"@, "20"@]
}

/// The step ends with a result of this kind and no hits.
pub open spec fn ends_with_kind(r: CbmStep, kind: nat) -> bool {
    r matches CbmStep::Done(g) && impact_view(g) == (kind, CBM@, Seq::<HitView>::empty())
}

/// The step ends ready with these hits.
pub open spec fn ends_ready(r: CbmStep, hits: Seq<HitView>) -> bool {
    r matches CbmStep::Done(g) && impact_view(g) == (0nat, CBM@, hits)
}

pub open spec fn asks(r: CbmStep, args: Seq<Seq<char>>) -> bool {
    r matches CbmStep::Ask { args: a, .. } && a.deep_view() == args
}

pub open spec fn nodes_view(v: Vec<CbmNode>) -> Seq<NodeView> {
    v@.map_values(|n: CbmNode| nv(n))
}

pub open spec fn roles_view(v: Vec<RoleEntry>) -> Seq<RoleView> {
    v@.map_values(|e: RoleEntry| rv(e))
}

/// The first call: the first page of projects.
pub fn cbm_start() -> (r: CbmStep)
    ensures
        asks(r, projects_args(0)),
        r matches CbmStep::Ask { stage: CbmStage::Projects { page }, .. } && page == 0,
{
    let args = projects_args_exec(0);
    CbmStep::Ask { stage: CbmStage::Projects { page: 0 }, args }
}

fn projects_args_exec(page: u64) -> (r: Vec<String>)
    requires
        page < 5,
    ensures
        r.deep_view() == projects_args(page as nat),
{
    let mut offset = String::new();
    crate::text::push_decimal(&mut offset, page * 50);
    let r = vec![string_from("list_projects"), string_from("--format"), string_from("json"), string_from("--limit"), string_from("50"), string_from("--offset"), offset];
    assert(r.deep_view() =~= projects_args(page as nat));
    r
}

fn symbol_args_exec(p: &str, symbol: &str) -> (r: Vec<String>)
    ensures
        r.deep_view() == symbol_args(p@, symbol@),
{
    let names = vec![string_from(symbol)];
    assert(names.deep_view() =~= seq![symbol@]);
    let pattern = exact_name_pattern(&names);
    let r = vec![string_from("search_graph"), string_from("--project"), string_from(p), string_from("--name-pattern"), pattern,
        string_from("--format"), string_from("json"), string_from("--limit"), string_from("5")];
    assert(r.deep_view() =~= symbol_args(p@, symbol@));
    r
}

fn coverage_or_symbol(project: String, scope: &str, symbol: &str) -> (r: CbmStep)
    ensures
        scope@ != "."@ ==> asks(r, coverage_args(project@, scope@)) && (r matches CbmStep::Ask { stage: CbmStage::Coverage { project: p }, .. } && p@ == project@),
        scope@ == "."@ ==> asks(r, symbol_args(project@, symbol@)) && (r matches CbmStep::Ask { stage: CbmStage::Symbol { project: p }, .. } && p@ == project@),
{
    if !same_str(scope, ".") {
        let args = vec![string_from("check_index_coverage"), string_from("--project"), project.clone(), string_from("--paths"), string_from(scope),
            string_from("--format"), string_from("json")];
        assert(args.deep_view() =~= coverage_args(project@, scope@));
        CbmStep::Ask { stage: CbmStage::Coverage { project }, args }
    } else {
        let args = symbol_args_exec(project.as_str(), symbol);
        CbmStep::Ask { stage: CbmStage::Symbol { project }, args }
    }
}

/// Advances the pipeline with the answer to the stage's call. A timeout
/// always ends it (`Timeout`). Discovery: a failed call is no answer
/// (`Invalid`); the exact root leads to the index check; without it, the
/// next page while more follow (five at most), else `NoIndex`. Index check:
/// a failed call, an index not ready or for another root is `NoIndex`;
/// else coverage (scoped query) or symbol resolution. Coverage: failed or
/// not serving the scope is `Invalid`. Symbol: failed, or no node named
/// exactly so, is `Invalid`; else the relations of the first symbol node.
/// Relations: failed is `Invalid`; none ends ready with the symbol's own
/// hits; else the related nodes are looked up, and whatever that lookup
/// gives (nothing when it fails) is merged with the symbol's nodes.
pub fn cbm_advance(stage: CbmStage, reply: CbmReply, scope: &str, symbol: &str) -> (r: CbmStep)
    ensures
        reply is Timeout ==> ends_with_kind(r, 2),
        match (stage, reply) {
            (CbmStage::Projects { page }, CbmReply::Failed) => ends_with_kind(r, 4),
            (CbmStage::Projects { page }, CbmReply::Projects { found, has_more }) => match found {
                Some(p) => asks(r, status_args(p@)) && (r matches CbmStep::Ask { stage: CbmStage::Status { project }, .. } && project@ == p@),
                None => if has_more && page < 4 {
                    asks(r, projects_args((page + 1) as nat)) && (r matches CbmStep::Ask { stage: CbmStage::Projects { page: next }, .. } && next == page + 1)
                } else {
                    ends_with_kind(r, 1)
                },
            },
            (CbmStage::Status { project }, CbmReply::Status { ready, same_root }) => if !ready || !same_root {
                ends_with_kind(r, 1)
            } else if scope@ != "."@ {
                asks(r, coverage_args(project@, scope@))
            } else {
                asks(r, symbol_args(project@, symbol@))
            },
            (CbmStage::Status { project }, CbmReply::Failed) => ends_with_kind(r, 1),
            (CbmStage::Coverage { project }, CbmReply::Failed) => ends_with_kind(r, 4),
            (CbmStage::Coverage { project }, CbmReply::Coverage(rows)) => if coverage_spec(rows@, scope@) {
                asks(r, symbol_args(project@, symbol@))
            } else {
                ends_with_kind(r, 4)
            },
            (CbmStage::Symbol { project }, CbmReply::Failed) => ends_with_kind(r, 4),
            (CbmStage::Symbol { project }, CbmReply::Nodes(nodes)) => {
                let sy = symbols_spec(nodes_view(nodes), symbol@);
                if sy.len() == 0 {
                    ends_with_kind(r, 4)
                } else {
                    asks(r, trace_args(sy[0].1, project@)) && (r matches CbmStep::Ask { stage: CbmStage::Trace { symbols, .. }, .. }
                        && nodes_view(symbols) == sy)
                }
            },
            (CbmStage::Trace { project, symbols }, CbmReply::Failed) => ends_with_kind(r, 4),
            (CbmStage::Trace { project, symbols }, CbmReply::Trace(rels)) => {
                let roles = roles_spec(rels_view(rels@));
                if roles.len() == 0 {
                    ends_ready(r, merged_spec(nodes_view(symbols), seq![], roles, scope@))
                } else {
                    asks(r, related_args(project@, roles.map_values(|e: RoleView| e.0)))
                        && (r matches CbmStep::Ask { stage: CbmStage::Related { symbols: s2, roles: r2, .. }, .. }
                        && nodes_view(s2) == nodes_view(symbols) && roles_view(r2) == roles)
                }
            },
            (CbmStage::Related { project, symbols, roles }, CbmReply::Failed) =>
                ends_ready(r, merged_spec(nodes_view(symbols), seq![], roles_view(roles), scope@)),
            (CbmStage::Related { project, symbols, roles }, CbmReply::Nodes(nodes)) =>
                ends_ready(r, merged_spec(nodes_view(symbols), related_spec(nodes_view(nodes), roles_view(roles)), roles_view(roles), scope@)),
            (_, CbmReply::Timeout) => true,
            _ => ends_with_kind(r, 4),
        },
{
    if let CbmReply::Timeout = reply {
        return CbmStep::Done(GraphImpact::Timeout { backend: CBM });
    }
    match stage {
        CbmStage::Projects { page } => match reply {
            CbmReply::Projects { found, has_more } => match found {
                Some(p) => {
                    let args = vec![string_from("index_status"), string_from("--project"), p.clone(), string_from("--format"), string_from("json")];
                    assert(args.deep_view() =~= status_args(p@));
                    CbmStep::Ask { stage: CbmStage::Status { project: p }, args }
                },
                None => {
                    if has_more && page < 4 {
                        let args = projects_args_exec(page + 1);
                        CbmStep::Ask { stage: CbmStage::Projects { page: page + 1 }, args }
                    } else {
                        CbmStep::Done(GraphImpact::NoIndex { backend: CBM })
                    }
                },
            },
            _ => CbmStep::Done(GraphImpact::Invalid { backend: CBM }),
        },
        CbmStage::Status { project } => match reply {
            CbmReply::Status { ready, same_root } => {
                if !ready || !same_root {
                    CbmStep::Done(GraphImpact::NoIndex { backend: CBM })
                } else {
                    coverage_or_symbol(project, scope, symbol)
                }
            },
            CbmReply::Failed => CbmStep::Done(GraphImpact::NoIndex { backend: CBM }),
            _ => CbmStep::Done(GraphImpact::Invalid { backend: CBM }),
        },
        CbmStage::Coverage { project } => match reply {
            CbmReply::Coverage(rows) => {
                if coverage_serves_scope(&rows, scope) {
                    let args = symbol_args_exec(project.as_str(), symbol);
                    CbmStep::Ask { stage: CbmStage::Symbol { project }, args }
                } else {
                    CbmStep::Done(GraphImpact::Invalid { backend: CBM })
                }
            },
            _ => CbmStep::Done(GraphImpact::Invalid { backend: CBM }),
        },
        CbmStage::Symbol { project } => match reply {
            CbmReply::Nodes(nodes) => {
                let symbols = select_symbols(&nodes, symbol);
                if symbols.len() == 0 {
                    CbmStep::Done(GraphImpact::Invalid { backend: CBM })
                } else {
                    assert(nodes_view(symbols)[0] == nv(symbols@[0]));
                    let anchor = symbols[0].qn.clone();
                    let args = vec![string_from("trace_path"), string_from("--function-name"), anchor, string_from("--project"), project.clone(),
                        string_from("--direction"), string_from("both"), string_from("--depth"), string_from("1"), string_from("--limit"),
                        string_from("20"), string_from("--format"), string_from("json")];
                    assert(args.deep_view() =~= trace_args(symbols@[0].qn@, project@));
                    CbmStep::Ask { stage: CbmStage::Trace { project, symbols }, args }
                }
            },
            _ => CbmStep::Done(GraphImpact::Invalid { backend: CBM }),
        },
        CbmStage::Trace { project, symbols } => match reply {
            CbmReply::Trace(rels) => {
                let roles = roles_of(&rels);
                if roles.len() == 0 {
                    let none: Vec<CbmNode> = Vec::new();
                    assert(nodes_view(none) =~= Seq::<NodeView>::empty());
                    CbmStep::Done(GraphImpact::Ready { backend: CBM, hits: merge_hits(&symbols, &none, &roles, scope) })
                } else {
                    let mut qns: Vec<String> = Vec::new();
                    let mut i: usize = 0;
                    while i < roles.len()
                        invariant
                            i <= roles.len(),
                            qns.deep_view() == roles_view(roles).take(i as int).map_values(|e: RoleView| e.0),
                        decreases roles.len() - i,
                    {
                        let ghost before = qns.deep_view();
                        qns.push(roles[i].qn.clone());
                        assert(qns.deep_view() =~= before.push(roles_view(roles)[i as int].0));
                        assert(roles_view(roles).take(i + 1).map_values(|e: RoleView| e.0)
                            =~= roles_view(roles).take(i as int).map_values(|e: RoleView| e.0).push(roles_view(roles)[i as int].0));
                        i += 1;
                    }
                    assert(roles_view(roles).take(i as int) =~= roles_view(roles));
                    let pattern = exact_name_pattern(&qns);
                    let args = vec![string_from("search_graph"), string_from("--project"), project.clone(), string_from("--qn-pattern"), pattern,
                        string_from("--format"), string_from("json"), string_from("--limit"), string_from("20")];
                    assert(args.deep_view() =~= related_args(project@, roles_view(roles).map_values(|e: RoleView| e.0)));
                    CbmStep::Ask { stage: CbmStage::Related { project, symbols, roles }, args }
                }
            },
            _ => CbmStep::Done(GraphImpact::Invalid { backend: CBM }),
        },
        CbmStage::Related { project, symbols, roles } => match reply {
            CbmReply::Nodes(nodes) => {
                let related = related_nodes(&nodes, &roles);
                CbmStep::Done(GraphImpact::Ready { backend: CBM, hits: merge_hits(&symbols, &related, &roles, scope) })
            },
            CbmReply::Failed => {
                let none: Vec<CbmNode> = Vec::new();
                assert(nodes_view(none) =~= Seq::<NodeView>::empty());
                CbmStep::Done(GraphImpact::Ready { backend: CBM, hits: merge_hits(&symbols, &none, &roles, scope) })
            },
            _ => CbmStep::Done(GraphImpact::Invalid { backend: CBM }),
        },
    }
}

// ---------------------------------------------------------------------------
// Graph router
// ---------------------------------------------------------------------------

/// Outcome of the graph router.
#[derive(Debug, Clone)]
pub enum GraphRoute {
    /// The first healthy backend answered; no second backend runs.
    Ready { backend: &'static str, hits: Vec<TextHit> },
    /// No graph backend could answer: the caller falls back to text search.
    Degrade { notes: Vec<String> },
}

/// What the router does with one backend before running it: a disabled
/// backend is skipped with a note, a missing one with its `Unavailable`
/// reason; a usable one runs.
pub fn backend_gate(state: crate::tools::ToolState, backend: &'static str) -> (r: Option<String>)
    ensures
        state == crate::tools::ToolState::Usable ==> r is None,
        state == crate::tools::ToolState::Disabled ==> (r matches Some(n) && n@ == backend@ + ": disabled in aicontext.toml"@),
        state == crate::tools::ToolState::Missing ==> (r matches Some(n) && n@ == reason_spec(GraphImpact::Unavailable { backend })),
{
    match state {
        crate::tools::ToolState::Disabled => {
            let mut s = string_from(backend);
            push_str(&mut s, ": disabled in aicontext.toml");
            Some(s)
        },
        crate::tools::ToolState::Missing => Some(GraphImpact::Unavailable { backend }.reason()),
        crate::tools::ToolState::Usable => None,
    }
}

/// The route's outcome once the backends were tried in order
/// (codebase-memory-mcp, then codegraph): each entry holds the note of
/// [`backend_gate`] for a backend that did not run, or what running it
/// gave. The first `Ready` is
/// terminal — a valid empty answer never triggers the next backend — and
/// every other outcome adds its reason to the notes.
pub open spec fn route_spec(tried: Seq<Result<GraphImpact, Seq<char>>>) -> (Option<(Seq<char>, Seq<HitView>)>, Seq<Seq<char>>)
    decreases tried.len(),
{
    if tried.len() == 0 {
        (None, seq![])
    } else {
        let prev = route_spec(tried.drop_last());
        match prev.0 {
            Some(x) => prev,
            None => match tried.last() {
                Err(note) => (None, prev.1.push(note)),
                Ok(g) => if impact_view(g).0 == 0 {
                    (Some((impact_view(g).1, impact_view(g).2)), prev.1)
                } else {
                    (None, prev.1.push(reason_spec(g)))
                },
            },
        }
    }
}

pub open spec fn tried_view(t: Seq<Result<GraphImpact, String>>) -> Seq<Result<GraphImpact, Seq<char>>> {
    t.map_values(|x: Result<GraphImpact, String>| match x {
        Ok(g) => Ok(g),
        Err(s) => Err(s@),
    })
}

/// The router's outcome (see [`route_spec`]).
pub fn route_impact(tried: &Vec<Result<GraphImpact, String>>) -> (r: GraphRoute)
    ensures
        match route_spec(tried_view(tried@)).0 {
            Some((b, hits)) => r matches GraphRoute::Ready { backend, hits: h } && backend@ == b && h@.map_values(|x: TextHit| hv(x)) == hits,
            None => r matches GraphRoute::Degrade { notes } && notes.deep_view() == route_spec(tried_view(tried@)).1,
        },
{
    let ghost tv = tried_view(tried@);
    let mut notes: Vec<String> = Vec::new();
    let mut i: usize = 0;
    assert(tv.take(0) =~= seq![]);
    assert(notes.deep_view() =~= seq![]);
    while i < tried.len()
        invariant
            i <= tried.len(),
            tv == tried_view(tried@),
            route_spec(tv.take(i as int)).0 is None,
            notes.deep_view() == route_spec(tv.take(i as int)).1,
        decreases tried.len() - i,
    {
        assert(tv.take(i + 1).drop_last() =~= tv.take(i as int));
        assert(tv.take(i + 1).last() == tv[i as int]);
        match &tried[i] {
            Err(note) => {
                let ghost before = notes.deep_view();
                notes.push(note.clone());
                assert(notes.deep_view() =~= before.push(note@));
            },
            Ok(g) => {
                match g {
                    GraphImpact::Ready { backend, hits } => {
                        proof {
                            lemma_route_stays(tv, i as int + 1);
                        }
                        let mut copy: Vec<TextHit> = Vec::new();
                        let mut k: usize = 0;
                        while k < hits.len()
                            invariant
                                k <= hits.len(),
                                copy@.map_values(|x: TextHit| hv(x)) == hits@.take(k as int).map_values(|x: TextHit| hv(x)),
                            decreases hits.len() - k,
                        {
                            let ghost before = copy@.map_values(|x: TextHit| hv(x));
                            copy.push(TextHit { path: hits[k].path.clone(), line: hits[k].line, text: hits[k].text.clone() });
                            assert(copy@.map_values(|x: TextHit| hv(x)) =~= before.push(hv(hits@[k as int])));
                            assert(hits@.take(k + 1).map_values(|x: TextHit| hv(x)) =~= hits@.take(k as int).map_values(|x: TextHit| hv(x)).push(hv(hits@[k as int])));
                            k += 1;
                        }
                        assert(hits@.take(k as int) =~= hits@);
                        return GraphRoute::Ready { backend, hits: copy };
                    },
                    _ => {
                        let ghost before = notes.deep_view();
                        notes.push(g.reason());
                        assert(notes.deep_view() =~= before.push(reason_spec(*g)));
                    },
                }
            },
        }
        i += 1;
    }
    assert(tv.take(i as int) =~= tv);
    GraphRoute::Degrade { notes }
}

/// The router's next move.
#[derive(Debug, Clone)]
pub enum RouteStep {
    /// Run this backend's impact query, then add what it gave to the
    /// outcomes and step again.
    Run { backend: &'static str },
    /// The route is over.
    Done(GraphRoute),
}

/// The backends in the order the router consults them.
pub open spec fn backend_at(k: int) -> &'static str {
    if k == 0 { CBM } else { CODEGRAPH }
}

/// The note [`backend_gate`] gives a backend that is not run.
pub open spec fn gate_spec(state: crate::tools::ToolState, backend: &'static str) -> Option<Seq<char>> {
    match state {
        crate::tools::ToolState::Usable => None,
        crate::tools::ToolState::Disabled => Some(backend@ + ": disabled in aicontext.toml"@),
        crate::tools::ToolState::Missing => Some(reason_spec(GraphImpact::Unavailable { backend })),
    }
}

/// From the outcomes so far: the outcomes once every backend that cannot
/// run has its note, and the backend to run next (none once an answer is
/// ready or both backends had their turn).
pub open spec fn advance_spec(
    cbm: crate::tools::ToolState,
    codegraph: crate::tools::ToolState,
    t: Seq<Result<GraphImpact, Seq<char>>>,
) -> (Seq<Result<GraphImpact, Seq<char>>>, Option<&'static str>)
    decreases 2 - t.len(),
{
    if route_spec(t).0 is Some || t.len() >= 2 {
        (t, None)
    } else {
        let k = t.len() as int;
        let state = if k == 0 { cbm } else { codegraph };
        match gate_spec(state, backend_at(k)) {
            None => (t, Some(backend_at(k))),
            Some(note) => advance_spec(cbm, codegraph, t.push(Err(note))),
        }
    }
}

proof fn lemma_note_keeps_route(t: Seq<Result<GraphImpact, Seq<char>>>, note: Seq<char>)
    requires
        route_spec(t).0 is None,
    ensures
        route_spec(t.push(Err(note))).0 is None,
{
    assert(t.push(Err(note)).drop_last() =~= t);
}

/// One step of the graph router over the tool states of
/// codebase-memory-mcp and codegraph and the outcomes gathered so far
/// (`tried`, one per backend in that order): a backend that cannot run gets
/// its note; the first one that can is returned to be run; once an answer
/// is ready, or both had their turn, the route is done.
pub fn route_step(cbm: crate::tools::ToolState, codegraph: crate::tools::ToolState, tried: &mut Vec<Result<GraphImpact, String>>) -> (r: RouteStep)
    ensures
        tried_view(final(tried)@) == advance_spec(cbm, codegraph, tried_view(old(tried)@)).0,
        match r {
            RouteStep::Run { backend } => advance_spec(cbm, codegraph, tried_view(old(tried)@)).1 == Some(backend),
            RouteStep::Done(route) => advance_spec(cbm, codegraph, tried_view(old(tried)@)).1 is None
                && match route_spec(tried_view(final(tried)@)).0 {
                    Some((b, hits)) => route matches GraphRoute::Ready { backend, hits: h } && backend@ == b
                        && h@.map_values(|x: TextHit| hv(x)) == hits,
                    None => route matches GraphRoute::Degrade { notes } && notes.deep_view() == route_spec(tried_view(final(tried)@)).1,
                },
        },
{
    let ghost t0 = tried_view(tried@);
    let route = route_impact(tried);
    let ready = match &route {
        GraphRoute::Ready { .. } => true,
        GraphRoute::Degrade { .. } => false,
    };
    if ready || tried.len() >= 2 {
        return RouteStep::Done(route);
    }
    let k = tried.len();
    let state = if k == 0 { cbm } else { codegraph };
    let backend = if k == 0 { CBM } else { CODEGRAPH };
    match backend_gate(state, backend) {
        None => {
            return RouteStep::Run { backend };
        },
        Some(note) => {
            proof {
                lemma_note_keeps_route(t0, note@);
            }
            tried.push(Err(note));
            assert(tried_view(tried@) =~= t0.push(Err(note@)));
        },
    }
    let ghost t1 = tried_view(tried@);
    assert(advance_spec(cbm, codegraph, t0) == advance_spec(cbm, codegraph, t1));
    if tried.len() >= 2 {
        assert(advance_spec(cbm, codegraph, t1) == (t1, None::<&'static str>));
        let done = route_impact(tried);
        return RouteStep::Done(done);
    }
    match backend_gate(codegraph, CODEGRAPH) {
        None => RouteStep::Run { backend: CODEGRAPH },
        Some(note) => {
            proof {
                lemma_note_keeps_route(t1, note@);
            }
            tried.push(Err(note));
            assert(tried_view(tried@) =~= t1.push(Err(note@)));
            assert(advance_spec(cbm, codegraph, t1.push(Err(note@))) == (t1.push(Err(note@)), None::<&'static str>));
            RouteStep::Done(route_impact(tried))
        },
    }
}

/// The router never runs a backend that is disabled or missing, and it
/// consults codebase-memory-mcp before codegraph: from no outcomes, the
/// first backend run is codebase-memory-mcp when usable, else codegraph
/// when usable.
pub proof fn lemma_route_runs_only_usable(cbm: crate::tools::ToolState, codegraph: crate::tools::ToolState)
    ensures
        advance_spec(cbm, codegraph, seq![]).1 == if cbm == crate::tools::ToolState::Usable {
            Some(CBM)
        } else if codegraph == crate::tools::ToolState::Usable {
            Some(CODEGRAPH)
        } else {
            None::<&'static str>
        },
{
    let e = Seq::<Result<GraphImpact, Seq<char>>>::empty();
    assert(e =~= seq![]);
    assert(route_spec(e).0 is None);
    if cbm != crate::tools::ToolState::Usable {
        let n0 = gate_spec(cbm, CBM).unwrap();
        lemma_note_keeps_route(e, n0);
        let t1 = e.push(Err(n0));
        assert(advance_spec(cbm, codegraph, e) == advance_spec(cbm, codegraph, t1));
        if codegraph != crate::tools::ToolState::Usable {
            let n1 = gate_spec(codegraph, CODEGRAPH).unwrap();
            lemma_note_keeps_route(t1, n1);
            let t2 = t1.push(Err(n1));
            assert(advance_spec(cbm, codegraph, t1) == advance_spec(cbm, codegraph, t2));
            assert(advance_spec(cbm, codegraph, t2).1 is None);
        } else {
            assert(advance_spec(cbm, codegraph, t1).1 == Some(CODEGRAPH));
        }
    } else {
        assert(advance_spec(cbm, codegraph, e).1 == Some(CBM));
    }
}

/// After a backend answered `Ready` the route is over: nothing else runs
/// and no note is added, whatever the tool states.
pub proof fn lemma_ready_is_terminal(
    cbm: crate::tools::ToolState,
    codegraph: crate::tools::ToolState,
    t: Seq<Result<GraphImpact, Seq<char>>>,
)
    requires
        route_spec(t).0 is Some,
    ensures
        advance_spec(cbm, codegraph, t) == (t, None::<&'static str>),
{
}

proof fn lemma_route_stays(t: Seq<Result<GraphImpact, Seq<char>>>, k: int)
    requires
        0 <= k <= t.len(),
        route_spec(t.take(k)).0 is Some,
    ensures
        route_spec(t) == route_spec(t.take(k)),
    decreases t.len() - k,
{
    if k < t.len() {
        assert(t.take(k + 1).drop_last() =~= t.take(k));
        lemma_route_stays(t, k + 1);
    } else {
        assert(t.take(k) =~= t);
    }
}

} // verus!
