//! `aicontext check`: every gate of the repository contract, as findings.
//! The caller gathers the facts (files, scan, tool runs); the verdicts and
//! their wording are decided here.
use vstd::prelude::*;

use crate::adapters::{AdapterOutcome, is_known_adapter, known_adapter};
use crate::config::{AdapterPolicy, ConsistencyFile, RepoConfig, REPO_MANIFEST, REPO_SCHEMA};
use crate::engineering::{dedup_sorted, EngineeringDetection};
use crate::order::{sort_strings, sorted_strings};
use crate::output::AiError;
use crate::scan::VersionCandidate;
use crate::state::{SubprojectEntry, between, extract_generated, freshness, freshness_key, CUR_END, CUR_START, GEN_END, GEN_START};
use crate::text::{
    chars_of, contains, contains_str, decimal, join, join_strs, push_decimal, push_str, same_str, starts_with,
    string_from, trim, trim_string,
};
use crate::tools::{opt_view, ToolInfo};

verus! {

pub const CHECK_SCHEMA: &'static str = "aicontext/check/v1";

/// One gate's verdict.
#[derive(Debug, Clone)]
pub struct Finding {
    pub name: String,
    pub passed: bool,
    pub detail: String,
}

pub open spec fn fv(f: Finding) -> (Seq<char>, bool, Seq<char>) {
    (f.name@, f.passed, f.detail@)
}

fn finding(name: &str, passed: bool, detail: String) -> (r: Finding)
    ensures
        fv(r) == (name@, passed, detail@),
{
    Finding { name: string_from(name), passed, detail }
}

/// `PROJECT_STATE.md` carries both marker pairs.
pub open spec fn has_markers(t: Seq<char>) -> bool {
    contains(t, GEN_START@) && contains(t, GEN_END@) && contains(t, CUR_START@) && contains(t, CUR_END@)
}

pub fn has_state_markers(text: &str) -> (r: bool)
    ensures
        r == has_markers(text@),
{
    contains_str(text, GEN_START) && contains_str(text, GEN_END) && contains_str(text, CUR_START) && contains_str(text, CUR_END)
}

/// The trimmed generated block of a state file, or empty without one.
pub open spec fn current_generated_spec(t: Seq<char>) -> Seq<char> {
    match between(t, GEN_START@, GEN_END@) {
        Some(g) => trim(g),
        None => seq![],
    }
}

pub fn current_generated(text: &str) -> (r: String)
    ensures
        r@ == current_generated_spec(text@),
{
    match extract_generated(text) {
        Some(g) => trim_string(g.as_str()),
        None => String::new(),
    }
}

// ---------------------------------------------------------------------------
// Commands: detected scripts against the declared list
// ---------------------------------------------------------------------------

/// The distinct elements in ascending order (what a `BTreeSet` iterates).
pub open spec fn distinct_sorted(s: Seq<Seq<char>>) -> Seq<Seq<char>> {
    dedup_sorted(sorted_strings(s))
}

/// The elements of `xs` that do not occur in `other`, order kept.
pub open spec fn absent_from(xs: Seq<Seq<char>>, other: Seq<Seq<char>>) -> Seq<Seq<char>>
    decreases xs.len(),
{
    if xs.len() == 0 {
        seq![]
    } else {
        let rest = absent_from(xs.drop_last(), other);
        if other.contains(xs.last()) { rest } else { rest.push(xs.last()) }
    }
}

pub fn distinct_sorted_exec(v: &Vec<String>) -> (r: Vec<String>)
    ensures
        r.deep_view() == distinct_sorted(v.deep_view()),
{
    let sorted = sort_strings(crate::text::clone_strings(v));
    let ghost sv = sorted.deep_view();
    let mut out: Vec<String> = Vec::new();
    let mut j: usize = 0;
    assert(sv.take(0) =~= seq![]);
    assert(out.deep_view() =~= seq![]);
    while j < sorted.len()
        invariant
            j <= sorted.len(),
            sv == sorted.deep_view(),
            out.deep_view() == dedup_sorted(sv.take(j as int)),
        decreases sorted.len() - j,
    {
        let ghost cur = sv.take(j + 1);
        assert(cur.drop_last() =~= sv.take(j as int));
        assert(cur.last() == sv[j as int]);
        let dup = j >= 1 && same_str(sorted[j - 1].as_str(), sorted[j].as_str());
        if j >= 1 {
            assert(cur[cur.len() - 2] == sv[j - 1]);
        }
        if !dup {
            let ghost before = out.deep_view();
            out.push(sorted[j].clone());
            assert(out.deep_view() =~= before.push(sv[j as int]));
        }
        j += 1;
    }
    assert(sv.take(j as int) =~= sv);
    out
}

fn member(v: &Vec<String>, x: &str) -> (r: bool)
    ensures
        r == v.deep_view().contains(x@),
{
    let ghost dv = v.deep_view();
    let mut i: usize = 0;
    while i < v.len()
        invariant
            i <= v.len(),
            dv == v.deep_view(),
            forall|k: int| 0 <= k < i ==> dv[k] != x@,
        decreases v.len() - i,
    {
        if same_str(v[i].as_str(), x) {
            assert(dv[i as int] == x@);
            return true;
        }
        i += 1;
    }
    false
}

pub fn absent_from_exec(xs: &Vec<String>, other: &Vec<String>) -> (r: Vec<String>)
    ensures
        r.deep_view() == absent_from(xs.deep_view(), other.deep_view()),
{
    let ghost xv = xs.deep_view();
    let mut out: Vec<String> = Vec::new();
    let mut i: usize = 0;
    assert(xv.take(0) =~= seq![]);
    assert(out.deep_view() =~= seq![]);
    while i < xs.len()
        invariant
            i <= xs.len(),
            xv == xs.deep_view(),
            out.deep_view() == absent_from(xv.take(i as int), other.deep_view()),
        decreases xs.len() - i,
    {
        assert(xv.take(i + 1).drop_last() =~= xv.take(i as int));
        assert(xv.take(i + 1).last() == xv[i as int]);
        if !member(other, xs[i].as_str()) {
            let ghost before = out.deep_view();
            out.push(xs[i].clone());
            assert(out.deep_view() =~= before.push(xv[i as int]));
        }
        i += 1;
    }
    assert(xv.take(i as int) =~= xv);
    out
}

/// Detected scripts that are not declared, and declared ones that were
/// not detected, each distinct and sorted.
pub fn command_diff(actual: &Vec<String>, documented: &Vec<String>) -> (r: (Vec<String>, Vec<String>))
    ensures
        r.0.deep_view() == absent_from(distinct_sorted(actual.deep_view()), documented.deep_view()),
        r.1.deep_view() == absent_from(distinct_sorted(documented.deep_view()), actual.deep_view()),
{
    let a = distinct_sorted_exec(actual);
    let d = distinct_sorted_exec(documented);
    (absent_from_exec(&a, documented), absent_from_exec(&d, actual))
}

pub open spec fn stale_part(stale: Seq<Seq<char>>, mentions: Seq<Seq<char>>) -> Seq<char> {
    "stale: "@ + join(stale, ", "@) + " — remove from consistency.yml"@
        + if mentions.len() > 0 { "; still mentioned in: "@ + join(mentions, ", "@) } else { seq![] }
}

/// Commands: detected scripts must match the declared list
/// exactly. Undocumented scripts fail (declare them) and stale entries fail
/// (remove them; `mentions` are docs still naming a stale entry). Without a
/// scan nothing can be verified.
pub open spec fn commands_spec(scan_ok: bool, actual: Seq<Seq<char>>, documented: Seq<Seq<char>>, mentions: Seq<Seq<char>>) -> (bool, Seq<char>) {
    let und = absent_from(distinct_sorted(actual), documented);
    let stale = absent_from(distinct_sorted(documented), actual);
    if !scan_ok {
        (false, "scan failed: cannot verify commands"@)
    } else if und.len() == 0 && stale.len() == 0 {
        (true, if actual.len() == 0 {
            "no scripts detected, none documented"@
        } else {
            decimal(distinct_sorted(actual).len()) + " command(s) verified: "@ + join(distinct_sorted(actual), ", "@)
        })
    } else {
        let parts = (if und.len() > 0 { seq!["undocumented: "@ + join(und, ", "@) + " — declare in consistency.yml"@] } else { seq![] })
            + (if stale.len() > 0 { seq![stale_part(stale, mentions)] } else { seq![] });
        (false, join(parts, "; "@))
    }
}

pub fn check_commands(scan_ok: bool, actual: &Vec<String>, documented: &Vec<String>, mentions: &Vec<String>) -> (r: (bool, String))
    ensures
        (r.0, r.1@) == commands_spec(scan_ok, actual.deep_view(), documented.deep_view(), mentions.deep_view()),
{
    if !scan_ok {
        return (false, string_from("scan failed: cannot verify commands"));
    }
    let (und, stale) = command_diff(actual, documented);
    if und.len() == 0 && stale.len() == 0 {
        if actual.len() == 0 {
            return (true, string_from("no scripts detected, none documented"));
        }
        let names = distinct_sorted_exec(actual);
        let mut s = String::new();
        push_decimal(&mut s, names.len() as u64);
        push_str(&mut s, " command(s) verified: ");
        push_str(&mut s, join_strs(&names, ", ").as_str());
        return (true, s);
    }
    let mut parts: Vec<String> = Vec::new();
    let ghost p0 = parts.deep_view();
    if und.len() > 0 {
        let mut m = string_from("undocumented: ");
        push_str(&mut m, join_strs(&und, ", ").as_str());
        push_str(&mut m, " — declare in consistency.yml");
        parts.push(m);
    }
    if stale.len() > 0 {
        let mut m = string_from("stale: ");
        push_str(&mut m, join_strs(&stale, ", ").as_str());
        push_str(&mut m, " — remove from consistency.yml");
        if mentions.len() > 0 {
            push_str(&mut m, "; still mentioned in: ");
            push_str(&mut m, join_strs(mentions, ", ").as_str());
        }
        proof {
            reveal_strlit("");
        }
        assert(m@ =~= stale_part(stale.deep_view(), mentions.deep_view()));
        parts.push(m);
    }
    let ghost und_part = if und.len() > 0 { seq!["undocumented: "@ + join(und.deep_view(), ", "@) + " — declare in consistency.yml"@] } else { Seq::<Seq<char>>::empty() };
    let ghost stale_parts = if stale.len() > 0 { seq![stale_part(stale.deep_view(), mentions.deep_view())] } else { Seq::<Seq<char>>::empty() };
    assert(parts.deep_view() =~= und_part + stale_parts);
    (false, join_strs(&parts, "; "))
}

// ---------------------------------------------------------------------------
// Consistency: version projections and protected paths
// ---------------------------------------------------------------------------

/// The version the scan found for `source`, if any (first match).
pub open spec fn resolve_spec(c: Seq<VersionCandidate>, source: Seq<char>) -> Option<Seq<char>>
    decreases c.len(),
{
    if c.len() == 0 {
        None
    } else if c[0].source@ == source {
        Some(c[0].version@)
    } else {
        resolve_spec(c.drop_first(), source)
    }
}

pub fn resolve_version(candidates: &Vec<VersionCandidate>, source: &str) -> (r: Option<String>)
    ensures
        match r {
            Some(v) => resolve_spec(candidates@, source@) == Some(v@),
            None => resolve_spec(candidates@, source@) is None,
        },
{
    let mut i: usize = 0;
    assert(candidates@.skip(0) =~= candidates@);
    while i < candidates.len()
        invariant
            i <= candidates.len(),
            resolve_spec(candidates@, source@) == resolve_spec(candidates@.skip(i as int), source@),
        decreases candidates.len() - i,
    {
        assert(candidates@.skip(i as int).drop_first() =~= candidates@.skip(i + 1));
        assert(candidates@.skip(i as int)[0] == candidates@[i as int]);
        if same_str(candidates[i].source.as_str(), source) {
            return Some(candidates[i].version.clone());
        }
        i += 1;
    }
    None
}

/// A projection path that may never be read: absolute or climbing (`..`).
pub open spec fn projection_unsafe_spec(p: Seq<char>) -> bool {
    starts_with(p, "/"@) || contains(p, ".."@)
}

pub fn projection_unsafe(proj: &str) -> (r: bool)
    ensures
        r == projection_unsafe_spec(proj@),
{
    crate::text::starts_with_str(proj, "/") || contains_str(proj, "..")
}

/// A projection file as found on disk.
pub enum ProjectionFile {
    Missing,
    NotFile,
    /// Over 1 MB.
    TooLarge,
    Unreadable,
    Text(String),
}

/// A projection passes when it is a safe path to a readable file of at
/// most 1 MB that contains the version.
pub open spec fn projection_spec(proj: Seq<char>, version: Seq<char>, file: ProjectionFile) -> Result<(), Seq<char>> {
    if projection_unsafe_spec(proj) {
        Err("unsafe path"@)
    } else {
        match file {
            ProjectionFile::Missing => Err("missing file"@),
            ProjectionFile::NotFile => Err("not a file"@),
            ProjectionFile::TooLarge => Err("file too large to verify"@),
            ProjectionFile::Unreadable => Err("unreadable"@),
            ProjectionFile::Text(t) => if contains(t@, version) { Ok(()) } else { Err("does not contain "@ + version) },
        }
    }
}

pub open spec fn res_view(r: Result<(), String>) -> Result<(), Seq<char>> {
    match r {
        Ok(()) => Ok(()),
        Err(e) => Err(e@),
    }
}

pub fn projection_check(proj: &str, version: &str, file: &ProjectionFile) -> (r: Result<(), String>)
    ensures
        res_view(r) == projection_spec(proj@, version@, *file),
{
    if projection_unsafe(proj) {
        return Err(string_from("unsafe path"));
    }
    match file {
        ProjectionFile::Missing => Err(string_from("missing file")),
        ProjectionFile::NotFile => Err(string_from("not a file")),
        ProjectionFile::TooLarge => Err(string_from("file too large to verify")),
        ProjectionFile::Unreadable => Err(string_from("unreadable")),
        ProjectionFile::Text(t) => {
            if contains_str(t.as_str(), version) {
                Ok(())
            } else {
                let mut e = string_from("does not contain ");
                push_str(&mut e, version);
                Err(e)
            }
        },
    }
}

/// `"{proj} ({reason})"` for every failing projection.
pub open spec fn bad_projections(projs: Seq<Seq<char>>, results: Seq<Result<(), Seq<char>>>) -> Seq<Seq<char>>
    decreases projs.len(),
{
    if projs.len() == 0 || results.len() < projs.len() {
        seq![]
    } else {
        let rest = bad_projections(projs.drop_last(), results);
        match results[projs.len() - 1] {
            Ok(()) => rest,
            Err(e) => rest.push(projs.last() + " ("@ + e + ")"@),
        }
    }
}

/// The protected paths that do not exist.
pub open spec fn missing_paths(paths: Seq<Seq<char>>, present: Seq<bool>) -> Seq<Seq<char>>
    decreases paths.len(),
{
    if paths.len() == 0 || present.len() < paths.len() {
        seq![]
    } else {
        let rest = missing_paths(paths.drop_last(), present);
        if present[paths.len() - 1] { rest } else { rest.push(paths.last()) }
    }
}

/// The version part of the consistency verdict. `version` is the version
/// resolved from the configured source (`None` when the scan has none);
/// `results[i]` is the check of the i-th projection against it.
pub open spec fn projections_part(projs: Seq<Seq<char>>, scan_ok: bool, source: Seq<char>, version: Option<Seq<char>>, results: Seq<Result<(), Seq<char>>>) -> (bool, Seq<char>) {
    if projs.len() == 0 {
        (true, "no projections declared"@)
    } else if !scan_ok {
        (false, "scan failed: cannot verify projections"@)
    } else {
        match version {
            None => (false, "cannot resolve version from "@ + source),
            Some(v) => {
                let bad = bad_projections(projs, results);
                if bad.len() == 0 {
                    (true, decimal(projs.len()) + " projection(s) carry "@ + v)
                } else {
                    (false, "projections failing: "@ + join(bad, ", "@))
                }
            },
        }
    }
}

pub open spec fn protected_part(paths: Seq<Seq<char>>, present: Seq<bool>) -> (bool, Seq<char>) {
    if paths.len() == 0 {
        (true, "no protected paths declared"@)
    } else {
        let missing = missing_paths(paths, present);
        if missing.len() == 0 {
            (true, decimal(paths.len()) + " protected path(s) present"@)
        } else {
            (false, "protected missing: "@ + join(missing, ", "@))
        }
    }
}

/// Consistency: every version projection carries the resolved
/// version and every protected path exists; empty lists enforce nothing.
pub open spec fn consistency_spec(manifest: Seq<char>, projs: Seq<Seq<char>>, protected: Seq<Seq<char>>, scan_ok: bool, source: Seq<char>, version: Option<Seq<char>>, results: Seq<Result<(), Seq<char>>>, present: Seq<bool>) -> (bool, Seq<char>) {
    let a = projections_part(projs, scan_ok, source, version, results);
    let b = protected_part(protected, present);
    (a.0 && b.0, manifest + ": "@ + a.1 + "; "@ + b.1)
}

proof fn lemma_bad_projections_empty(projs: Seq<Seq<char>>, results: Seq<Result<(), Seq<char>>>)
    requires
        results.len() >= projs.len(),
    ensures
        bad_projections(projs, results).len() == 0 <==> forall|i: int| 0 <= i < projs.len() ==> (#[trigger] results[i]) is Ok,
    decreases projs.len(),
{
    if projs.len() > 0 {
        lemma_bad_projections_empty(projs.drop_last(), results);
        let n = projs.len() - 1;
        if results[n] is Ok {
            assert forall|i: int| 0 <= i < projs.len() && (forall|k: int| 0 <= k < projs.drop_last().len() ==> (#[trigger] results[k]) is Ok)
                implies (#[trigger] results[i]) is Ok by {
                if i < n {
                    assert(results[i] is Ok);
                }
            }
        }
    }
}

proof fn lemma_missing_paths_empty(paths: Seq<Seq<char>>, present: Seq<bool>)
    requires
        present.len() >= paths.len(),
    ensures
        missing_paths(paths, present).len() == 0 <==> forall|i: int| 0 <= i < paths.len() ==> #[trigger] present[i],
    decreases paths.len(),
{
    if paths.len() > 0 {
        lemma_missing_paths_empty(paths.drop_last(), present);
        let n = paths.len() - 1;
        if present[n] {
            assert forall|i: int| 0 <= i < paths.len() && (forall|k: int| 0 <= k < paths.drop_last().len() ==> #[trigger] present[k])
                implies #[trigger] present[i] by {
                if i < n {
                    assert(present[i]);
                }
            }
        }
    }
}

/// The consistency gate passes exactly when every declared version
/// projection carries the resolved version (the scan ran, a version was
/// resolved and every projection's check passed) and every protected path
/// exists: one missing protected path, or one failing projection, fails it.
pub proof fn lemma_consistency_verdict(
    manifest: Seq<char>,
    projs: Seq<Seq<char>>,
    protected: Seq<Seq<char>>,
    scan_ok: bool,
    source: Seq<char>,
    version: Option<Seq<char>>,
    results: Seq<Result<(), Seq<char>>>,
    present: Seq<bool>,
)
    requires
        results.len() == projs.len(),
        present.len() == protected.len(),
    ensures
        consistency_spec(manifest, projs, protected, scan_ok, source, version, results, present).0 <==> (
            (projs.len() == 0 || (scan_ok && version is Some && forall|i: int| 0 <= i < projs.len() ==> (#[trigger] results[i]) is Ok))
            && forall|i: int| 0 <= i < protected.len() ==> #[trigger] present[i]),
{
    lemma_bad_projections_empty(projs, results);
    lemma_missing_paths_empty(protected, present);
}

fn bad_projections_exec(projs: &Vec<String>, results: &Vec<Result<(), String>>) -> (r: Vec<String>)
    requires
        results.len() == projs.len(),
    ensures
        r.deep_view() == bad_projections(projs.deep_view(), results@.map_values(|x: Result<(), String>| res_view(x))),
{
    let ghost pv = projs.deep_view();
    let ghost rv = results@.map_values(|x: Result<(), String>| res_view(x));
    let mut out: Vec<String> = Vec::new();
    let mut i: usize = 0;
    assert(pv.take(0) =~= seq![]);
    assert(out.deep_view() =~= seq![]);
    while i < projs.len()
        invariant
            i <= projs.len(),
            results.len() == projs.len(),
            pv == projs.deep_view(),
            rv == results@.map_values(|x: Result<(), String>| res_view(x)),
            out.deep_view() == bad_projections(pv.take(i as int), rv),
        decreases projs.len() - i,
    {
        assert(pv.take(i + 1).drop_last() =~= pv.take(i as int));
        assert(pv.take(i + 1).last() == pv[i as int]);
        match &results[i] {
            Ok(()) => {},
            Err(e) => {
                let ghost before = out.deep_view();
                let mut s = projs[i].clone();
                push_str(&mut s, " (");
                push_str(&mut s, e.as_str());
                push_str(&mut s, ")");
                out.push(s);
                assert(out.deep_view() =~= before.push(pv[i as int] + " ("@ + e@ + ")"@));
            },
        }
        i += 1;
    }
    assert(pv.take(i as int) =~= pv);
    out
}

pub fn missing_paths_exec(paths: &Vec<String>, present: &Vec<bool>) -> (r: Vec<String>)
    requires
        present.len() == paths.len(),
    ensures
        r.deep_view() == missing_paths(paths.deep_view(), present@),
{
    let ghost pv = paths.deep_view();
    let mut out: Vec<String> = Vec::new();
    let mut i: usize = 0;
    assert(pv.take(0) =~= seq![]);
    assert(out.deep_view() =~= seq![]);
    while i < paths.len()
        invariant
            i <= paths.len(),
            present.len() == paths.len(),
            pv == paths.deep_view(),
            out.deep_view() == missing_paths(pv.take(i as int), present@),
        decreases paths.len() - i,
    {
        assert(pv.take(i + 1).drop_last() =~= pv.take(i as int));
        assert(pv.take(i + 1).last() == pv[i as int]);
        if !present[i] {
            let ghost before = out.deep_view();
            out.push(paths[i].clone());
            assert(out.deep_view() =~= before.push(pv[i as int]));
        }
        i += 1;
    }
    assert(pv.take(i as int) =~= pv);
    out
}

/// The consistency verdict (see [`consistency_spec`]).
pub fn check_consistency(
    manifest: &str,
    cons: &ConsistencyFile,
    scan_ok: bool,
    version: Option<&str>,
    results: &Vec<Result<(), String>>,
    protected_present: &Vec<bool>,
) -> (r: (bool, String))
    requires
        protected_present.len() == cons.protected.len(),
        scan_ok && version is Some && cons.version.projections.len() > 0 ==> results.len() == cons.version.projections.len(),
    ensures
        (r.0, r.1@) == consistency_spec(manifest@, cons.version.projections.deep_view(), cons.protected.deep_view(), scan_ok,
            cons.version.source@, match version { Some(v) => Some(v@), None => None },
            results@.map_values(|x: Result<(), String>| res_view(x)), protected_present@),
{
    let projs = &cons.version.projections;
    let ghost vv: Option<Seq<char>> = match version { Some(v) => Some(v@), None => None };
    let (a_ok, a_text): (bool, String) = if projs.len() == 0 {
        (true, string_from("no projections declared"))
    } else if !scan_ok {
        (false, string_from("scan failed: cannot verify projections"))
    } else {
        match version {
            None => {
                let mut s = string_from("cannot resolve version from ");
                push_str(&mut s, cons.version.source.as_str());
                (false, s)
            },
            Some(v) => {
                let bad = bad_projections_exec(projs, results);
                if bad.len() == 0 {
                    let mut s = String::new();
                    push_decimal(&mut s, projs.len() as u64);
                    push_str(&mut s, " projection(s) carry ");
                    push_str(&mut s, v);
                    (true, s)
                } else {
                    let mut s = string_from("projections failing: ");
                    push_str(&mut s, join_strs(&bad, ", ").as_str());
                    (false, s)
                }
            },
        }
    };
    assert((a_ok, a_text@) == projections_part(projs.deep_view(), scan_ok, cons.version.source@, vv, results@.map_values(|x: Result<(), String>| res_view(x))));
    let protected = &cons.protected;
    let (b_ok, b_text): (bool, String) = if protected.len() == 0 {
        (true, string_from("no protected paths declared"))
    } else {
        let missing = missing_paths_exec(protected, protected_present);
        if missing.len() == 0 {
            let mut s = String::new();
            push_decimal(&mut s, protected.len() as u64);
            push_str(&mut s, " protected path(s) present");
            (true, s)
        } else {
            let mut s = string_from("protected missing: ");
            push_str(&mut s, join_strs(&missing, ", ").as_str());
            (false, s)
        }
    };
    let mut text = string_from(manifest);
    push_str(&mut text, ": ");
    push_str(&mut text, a_text.as_str());
    push_str(&mut text, "; ");
    push_str(&mut text, b_text.as_str());
    (a_ok && b_ok, text)
}

// ---------------------------------------------------------------------------
// Adapters under a policy
// ---------------------------------------------------------------------------

/// What `format!("{:?}", s)` renders for a string: quoted, with the
/// characters Debug escapes escaped.
pub uninterp spec fn debug_str(s: Seq<char>) -> Seq<char>;

/// Renders a string with its `Debug` format (`format!("{:?}", s)`).
#[verifier::external_body]
fn debug_quoted(s: &str) -> (r: String)
    ensures
        r@ == debug_str(s@),
{
    format!("{:?}", s)
}

pub open spec fn action_for(state: Seq<char>) -> Seq<char> {
    if state == "issues"@ {
        "fix the reported issues"@
    } else if state == "missing"@ {
        "install the adapter so evidence is available"@
    } else if state == "unconfigured"@ {
        "add the expected config so the adapter can run"@
    } else {
        "fix the adapter run failure"@
    }
}

/// A required adapter passes only on a clean executed run; anything else
/// fails with the remediation (fix the tool state, or relax the policy).
pub open spec fn required_verdict_spec(tool: Seq<char>, state: Seq<char>, detail: Seq<char>, manifest: Seq<char>) -> (bool, Seq<char>) {
    if state == "ok"@ {
        (true, "[ok] "@ + detail + " (policy required by "@ + manifest + ": clean)"@)
    } else {
        (false, "["@ + state + "] "@ + detail + " — required by "@ + manifest + " (adapters."@ + tool
            + ".policy = required): "@ + action_for(state) + ", or set policy to advisory"@)
    }
}

/// A required adapter passes exactly on a clean executed run (state
/// `ok`); a missing, unconfigured, failing or issue-reporting one fails,
/// and the verdict for a missing one says to install it.
pub proof fn lemma_required_adapter_passes_only_clean(tool: Seq<char>, state: Seq<char>, detail: Seq<char>, manifest: Seq<char>)
    ensures
        required_verdict_spec(tool, state, detail, manifest).0 <==> state == "ok"@,
        state == "missing"@ ==> crate::text::occurs_in(required_verdict_spec(tool, state, detail, manifest).1,
            "install the adapter so evidence is available"@),
{
    if state == "missing"@ {
        reveal_strlit("missing");
        reveal_strlit("ok");
        reveal_strlit("issues");
        assert(state != "ok"@) by {
            assert(state.len() != "ok"@.len());
        }
        assert(state != "issues"@) by {
            assert(state[0] != "issues"@[0]);
        }
        let t = required_verdict_spec(tool, state, detail, manifest).1;
        let pre = "["@ + state + "] "@ + detail + " — required by "@ + manifest + " (adapters."@ + tool + ".policy = required): "@;
        let act = "install the adapter so evidence is available"@;
        assert(action_for(state) == act);
        assert(t =~= pre + act + ", or set policy to advisory"@);
        assert(t.subrange(pre.len() as int, (pre.len() + act.len()) as int) =~= act);
        assert(crate::text::occurs_at(t, act, pre.len() as int));
    }
}

pub fn required_adapter_verdict(a: &AdapterOutcome, manifest: &str) -> (r: (bool, String))
    ensures
        (r.0, r.1@) == required_verdict_spec(a.tool@, a.state@, a.detail@, manifest@),
{
    if same_str(a.state.as_str(), "ok") {
        let mut s = string_from("[ok] ");
        push_str(&mut s, a.detail.as_str());
        push_str(&mut s, " (policy required by ");
        push_str(&mut s, manifest);
        push_str(&mut s, ": clean)");
        return (true, s);
    }
    let st = a.state.as_str();
    let action = if same_str(st, "issues") {
        "fix the reported issues"
    } else if same_str(st, "missing") {
        "install the adapter so evidence is available"
    } else if same_str(st, "unconfigured") {
        "add the expected config so the adapter can run"
    } else {
        "fix the adapter run failure"
    };
    let mut s = string_from("[");
    push_str(&mut s, st);
    push_str(&mut s, "] ");
    push_str(&mut s, a.detail.as_str());
    push_str(&mut s, " — required by ");
    push_str(&mut s, manifest);
    push_str(&mut s, " (adapters.");
    push_str(&mut s, a.tool);
    push_str(&mut s, ".policy = required): ");
    push_str(&mut s, action);
    push_str(&mut s, ", or set policy to advisory");
    (false, s)
}

pub open spec fn pv(p: AdapterPolicy) -> (Seq<char>, Seq<char>) {
    (p.name@, p.policy@)
}

/// The problems of the policy table: unknown adapter names (typos) and
/// values other than `required` / `advisory`.
pub open spec fn policy_errors(ps: Seq<(Seq<char>, Seq<char>)>) -> Seq<Seq<char>>
    decreases ps.len(),
{
    if ps.len() == 0 {
        seq![]
    } else {
        let rest = policy_errors(ps.drop_last());
        let (name, policy) = ps.last();
        if known_adapter(name) {
            if policy == "required"@ || policy == "advisory"@ {
                rest
            } else {
                rest.push("invalid policy "@ + debug_str(policy) + " for adapter "@ + debug_str(name) + " — expected \"required\" or \"advisory\""@)
            }
        } else {
            rest.push("unknown adapter "@ + debug_str(name) + " — known adapters: knip, dependency-cruiser, lychee, zizmor"@)
        }
    }
}

/// The policy declared for a tool (first entry), `advisory` by default.
pub open spec fn policy_of(ps: Seq<(Seq<char>, Seq<char>)>, tool: Seq<char>) -> Seq<char>
    decreases ps.len(),
{
    if ps.len() == 0 {
        "advisory"@
    } else if ps[0].0 == tool {
        ps[0].1
    } else {
        policy_of(ps.drop_first(), tool)
    }
}

pub open spec fn outcome_finding(a: AdapterOutcome, ps: Seq<(Seq<char>, Seq<char>)>, manifest: Seq<char>) -> (Seq<char>, bool, Seq<char>) {
    if policy_of(ps, a.tool@) == "required"@ {
        let v = required_verdict_spec(a.tool@, a.state@, a.detail@, manifest);
        ("adapter:"@ + a.tool@, v.0, v.1)
    } else {
        ("adapter:"@ + a.tool@, true, "["@ + a.state@ + "] "@ + a.detail@)
    }
}

pub open spec fn ran(outcomes: Seq<AdapterOutcome>, name: Seq<char>) -> bool {
    exists|i: int| 0 <= i < outcomes.len() && (#[trigger] outcomes[i]).tool@ == name
}

/// Required, known adapters that produced no outcome (not applicable).
pub open spec fn unrun_required(ps: Seq<(Seq<char>, Seq<char>)>, outcomes: Seq<AdapterOutcome>, manifest: Seq<char>) -> Seq<(Seq<char>, bool, Seq<char>)>
    decreases ps.len(),
{
    if ps.len() == 0 {
        seq![]
    } else {
        let rest = unrun_required(ps.drop_last(), outcomes, manifest);
        let (name, policy) = ps.last();
        if policy == "required"@ && !ran(outcomes, name) && known_adapter(name) {
            rest.push(("adapter:"@ + name, false, name + " is required by "@ + manifest
                + " but did not run (not applicable to this repo) — remove the policy, make the repo applicable, or set policy to advisory"@))
        } else {
            rest
        }
    }
}

/// Policy-aware adapter findings: one `adapter policy` finding naming every
/// problem of the table (when there is one), then one finding per adapter
/// outcome (advisory ones always pass), then a failing finding for every
/// required adapter that did not run.
pub open spec fn adapter_findings_spec(ps: Seq<(Seq<char>, Seq<char>)>, outcomes: Seq<AdapterOutcome>, manifest: Seq<char>) -> Seq<(Seq<char>, bool, Seq<char>)> {
    let errors = policy_errors(ps);
    (if errors.len() > 0 { seq![("adapter policy"@, false, manifest + ": "@ + join(errors, "; "@))] } else { seq![] })
        + outcomes.map_values(|a: AdapterOutcome| outcome_finding(a, ps, manifest))
        + unrun_required(ps, outcomes, manifest)
}

fn policy_of_exec(policies: &Vec<AdapterPolicy>, tool: &str) -> (r: String)
    ensures
        r@ == policy_of(policies@.map_values(|p: AdapterPolicy| pv(p)), tool@),
{
    let ghost ps = policies@.map_values(|p: AdapterPolicy| pv(p));
    let mut i: usize = 0;
    assert(ps.skip(0) =~= ps);
    while i < policies.len()
        invariant
            i <= policies.len(),
            ps == policies@.map_values(|p: AdapterPolicy| pv(p)),
            policy_of(ps, tool@) == policy_of(ps.skip(i as int), tool@),
        decreases policies.len() - i,
    {
        assert(ps.skip(i as int).drop_first() =~= ps.skip(i + 1));
        assert(ps.skip(i as int)[0] == ps[i as int]);
        if same_str(policies[i].name.as_str(), tool) {
            return policies[i].policy.clone();
        }
        i += 1;
    }
    assert(ps.skip(i as int) =~= Seq::<(Seq<char>, Seq<char>)>::empty());
    string_from("advisory")
}

fn ran_exec(outcomes: &Vec<AdapterOutcome>, name: &str) -> (r: bool)
    ensures
        r == ran(outcomes@, name@),
{
    let mut i: usize = 0;
    while i < outcomes.len()
        invariant
            i <= outcomes.len(),
            forall|k: int| 0 <= k < i ==> (#[trigger] outcomes@[k]).tool@ != name@,
        decreases outcomes.len() - i,
    {
        if same_str(outcomes[i].tool, name) {
            return true;
        }
        i += 1;
    }
    false
}

/// Advisory adapters never block `check`: each adapter outcome has its
/// own finding, in run order, after the policy-table finding (when there
/// is one), and the finding of an adapter not declared `required` passes
/// whatever the adapter reported.
pub proof fn lemma_advisory_adapters_never_block(ps: Seq<(Seq<char>, Seq<char>)>, outcomes: Seq<AdapterOutcome>, manifest: Seq<char>)
    ensures
        forall|k: int| 0 <= k < outcomes.len() ==> {
            let off = if policy_errors(ps).len() > 0 { 1int } else { 0int };
            &&& adapter_findings_spec(ps, outcomes, manifest)[off + k] == outcome_finding(#[trigger] outcomes[k], ps, manifest)
            &&& (policy_of(ps, outcomes[k].tool@) != "required"@ ==> adapter_findings_spec(ps, outcomes, manifest)[off + k].1)
        },
{
    let errors = policy_errors(ps);
    let head: Seq<(Seq<char>, bool, Seq<char>)> = if errors.len() > 0 { seq![("adapter policy"@, false, manifest + ": "@ + join(errors, "; "@))] } else { seq![] };
    let mid = outcomes.map_values(|a: AdapterOutcome| outcome_finding(a, ps, manifest));
    let tail = unrun_required(ps, outcomes, manifest);
    assert(adapter_findings_spec(ps, outcomes, manifest) == head + mid + tail);
    assert forall|k: int| 0 <= k < outcomes.len() implies {
        let off = if policy_errors(ps).len() > 0 { 1int } else { 0int };
        &&& adapter_findings_spec(ps, outcomes, manifest)[off + k] == outcome_finding(#[trigger] outcomes[k], ps, manifest)
        &&& (policy_of(ps, outcomes[k].tool@) != "required"@ ==> adapter_findings_spec(ps, outcomes, manifest)[off + k].1)
    } by {
        let off = if errors.len() > 0 { 1int } else { 0int };
        assert(head.len() == off);
        assert((head + mid + tail)[off + k] == mid[k]);
    }
}

/// Policy-aware adapter findings (see [`adapter_findings_spec`]).
pub fn check_adapters(policies: &Vec<AdapterPolicy>, outcomes: &Vec<AdapterOutcome>, manifest: &str) -> (r: Vec<Finding>)
    ensures
        r@.map_values(|f: Finding| fv(f)) == adapter_findings_spec(policies@.map_values(|p: AdapterPolicy| pv(p)), outcomes@, manifest@),
{
    let ghost ps = policies@.map_values(|p: AdapterPolicy| pv(p));
    // 1. the table itself
    let mut errors: Vec<String> = Vec::new();
    let mut i: usize = 0;
    assert(ps.take(0) =~= seq![]);
    assert(errors.deep_view() =~= seq![]);
    while i < policies.len()
        invariant
            i <= policies.len(),
            ps == policies@.map_values(|p: AdapterPolicy| pv(p)),
            errors.deep_view() == policy_errors(ps.take(i as int)),
        decreases policies.len() - i,
    {
        assert(ps.take(i + 1).drop_last() =~= ps.take(i as int));
        assert(ps.take(i + 1).last() == ps[i as int]);
        let name = policies[i].name.as_str();
        let policy = policies[i].policy.as_str();
        let ghost before = errors.deep_view();
        if is_known_adapter(name) {
            if !(same_str(policy, "required") || same_str(policy, "advisory")) {
                let mut m = string_from("invalid policy ");
                push_str(&mut m, debug_quoted(policy).as_str());
                push_str(&mut m, " for adapter ");
                push_str(&mut m, debug_quoted(name).as_str());
                push_str(&mut m, " — expected \"required\" or \"advisory\"");
                errors.push(m);
                assert(errors.deep_view() =~= before.push("invalid policy "@ + debug_str(policy@) + " for adapter "@ + debug_str(name@) + " — expected \"required\" or \"advisory\""@));
            }
        } else {
            let mut m = string_from("unknown adapter ");
            push_str(&mut m, debug_quoted(name).as_str());
            push_str(&mut m, " — known adapters: knip, dependency-cruiser, lychee, zizmor");
            errors.push(m);
            assert(errors.deep_view() =~= before.push("unknown adapter "@ + debug_str(name@) + " — known adapters: knip, dependency-cruiser, lychee, zizmor"@));
        }
        i += 1;
    }
    assert(ps.take(i as int) =~= ps);
    let mut out: Vec<Finding> = Vec::new();
    if errors.len() > 0 {
        let mut d = string_from(manifest);
        push_str(&mut d, ": ");
        push_str(&mut d, join_strs(&errors, "; ").as_str());
        out.push(finding("adapter policy", false, d));
    }
    let ghost head = out@.map_values(|f: Finding| fv(f));
    assert(head =~= if policy_errors(ps).len() > 0 { seq![("adapter policy"@, false, manifest@ + ": "@ + join(policy_errors(ps), "; "@))] } else { seq![] });
    // 2. one finding per outcome
    let mut k: usize = 0;
    while k < outcomes.len()
        invariant
            k <= outcomes.len(),
            ps == policies@.map_values(|p: AdapterPolicy| pv(p)),
            out@.map_values(|f: Finding| fv(f)) == head + outcomes@.take(k as int).map_values(|a: AdapterOutcome| outcome_finding(a, ps, manifest@)),
        decreases outcomes.len() - k,
    {
        let a = &outcomes[k];
        let policy = policy_of_exec(policies, a.tool);
        let mut name = string_from("adapter:");
        push_str(&mut name, a.tool);
        let ghost before = out@.map_values(|f: Finding| fv(f));
        if same_str(policy.as_str(), "required") {
            let (passed, detail) = required_adapter_verdict(a, manifest);
            out.push(Finding { name, passed, detail });
        } else {
            let mut d = string_from("[");
            push_str(&mut d, a.state.as_str());
            push_str(&mut d, "] ");
            push_str(&mut d, a.detail.as_str());
            out.push(Finding { name, passed: true, detail: d });
        }
        assert(out@.map_values(|f: Finding| fv(f)) =~= before.push(outcome_finding(*a, ps, manifest@)));
        assert(outcomes@.take(k + 1).map_values(|a: AdapterOutcome| outcome_finding(a, ps, manifest@))
            =~= outcomes@.take(k as int).map_values(|a: AdapterOutcome| outcome_finding(a, ps, manifest@)).push(outcome_finding(*a, ps, manifest@)));
        k += 1;
    }
    assert(outcomes@.take(k as int) =~= outcomes@);
    let ghost mid = out@.map_values(|f: Finding| fv(f));
    // 3. required adapters that never ran
    let mut j: usize = 0;
    assert(ps.take(0) =~= seq![]);
    assert(mid =~= mid + unrun_required(ps.take(0), outcomes@, manifest@));
    while j < policies.len()
        invariant
            j <= policies.len(),
            ps == policies@.map_values(|p: AdapterPolicy| pv(p)),
            out@.map_values(|f: Finding| fv(f)) == mid + unrun_required(ps.take(j as int), outcomes@, manifest@),
        decreases policies.len() - j,
    {
        assert(ps.take(j + 1).drop_last() =~= ps.take(j as int));
        assert(ps.take(j + 1).last() == ps[j as int]);
        let name = policies[j].name.as_str();
        let ghost before = out@.map_values(|f: Finding| fv(f));
        if same_str(policies[j].policy.as_str(), "required") && !ran_exec(outcomes, name) && is_known_adapter(name) {
            let mut n = string_from("adapter:");
            push_str(&mut n, name);
            let mut d = string_from(name);
            push_str(&mut d, " is required by ");
            push_str(&mut d, manifest);
            push_str(&mut d, " but did not run (not applicable to this repo) — remove the policy, make the repo applicable, or set policy to advisory");
            out.push(Finding { name: n, passed: false, detail: d });
            assert(out@.map_values(|f: Finding| fv(f)) =~= before.push(("adapter:"@ + name@, false, name@ + " is required by "@ + manifest@
                + " but did not run (not applicable to this repo) — remove the policy, make the repo applicable, or set policy to advisory"@)));
        }
        j += 1;
    }
    assert(ps.take(j as int) =~= ps);
    out
}

// ---------------------------------------------------------------------------
// Structural rules (ast-grep)
// ---------------------------------------------------------------------------

/// What one rule file's run produced.
#[derive(Debug, Clone)]
pub enum RuleOutcome {
    Clean,
    Violations(String),
    Error(String),
}

pub type MatchView = (Seq<char>, Seq<char>);

pub open spec fn matches_view(m: Seq<(String, String)>) -> Seq<MatchView> {
    m.map_values(|p: (String, String)| (p.0@, p.1@))
}

pub open spec fn count_errors(m: Seq<MatchView>) -> nat
    decreases m.len(),
{
    if m.len() == 0 {
        0
    } else {
        count_errors(m.drop_last()) + if m.last().1 == "error"@ { 1nat } else { 0nat }
    }
}

proof fn lemma_count_errors_le(m: Seq<MatchView>)
    ensures
        count_errors(m) <= m.len(),
    decreases m.len(),
{
    if m.len() > 0 {
        lemma_count_errors_le(m.drop_last());
    }
}

pub open spec fn first_n(s: Seq<Seq<char>>, n: nat) -> Seq<Seq<char>> {
    if s.len() > n { s.take(n as int) } else { s }
}

/// `"{e} error(s), {w} warning(s) in {files}"` (each count only when
/// non-zero), naming at most three distinct files in order.
pub open spec fn violation_summary(m: Seq<MatchView>) -> Seq<char> {
    let e = count_errors(m);
    let w = (m.len() - e) as nat;
    let files = first_n(distinct_sorted(m.map_values(|x: MatchView| x.0)), 3);
    let a = if e > 0 { decimal(e) + " error(s)"@ } else { seq![] };
    let b = if w > 0 { (if e > 0 { ", "@ } else { seq![] }) + decimal(w) + " warning(s)"@ } else { seq![] };
    a + b + " in "@ + join(files, ", "@)
}

/// The last `n` characters.
pub open spec fn tail_chars(s: Seq<char>, n: nat) -> Seq<char> {
    if s.len() > n { s.skip(s.len() - n) } else { s }
}

/// Kind (0 clean, 1 violations, 2 error) and text of a rule run: parsed
/// matches decide; with none readable, the exit status does.
pub open spec fn rule_outcome_spec(matches: Option<Seq<MatchView>>, success: bool, stderr: Seq<char>) -> (nat, Seq<char>) {
    match matches {
        Some(m) => if m.len() > 0 { (1, violation_summary(m)) } else { (0, seq![]) },
        None => if success {
            (0, seq![])
        } else {
            let tail = tail_chars(trim(stderr), 200);
            (2, "rule failed to run"@ + if tail.len() == 0 { seq![] } else { ": "@ + tail })
        },
    }
}

pub open spec fn rule_view(o: RuleOutcome) -> (nat, Seq<char>) {
    match o {
        RuleOutcome::Clean => (0, seq![]),
        RuleOutcome::Violations(s) => (1, s@),
        RuleOutcome::Error(s) => (2, s@),
    }
}

fn violation_summary_exec(m: &Vec<(String, String)>) -> (r: String)
    requires
        m.len() > 0,
    ensures
        r@ == violation_summary(matches_view(m@)),
{
    let ghost mv = matches_view(m@);
    let mut errors: usize = 0;
    let mut files: Vec<String> = Vec::new();
    let mut i: usize = 0;
    assert(mv.take(0) =~= seq![]);
    while i < m.len()
        invariant
            i <= m.len(),
            mv == matches_view(m@),
            errors == count_errors(mv.take(i as int)),
            errors <= i,
            files.deep_view() == mv.take(i as int).map_values(|x: MatchView| x.0),
        decreases m.len() - i,
    {
        assert(mv.take(i + 1).drop_last() =~= mv.take(i as int));
        assert(mv.take(i + 1).last() == mv[i as int]);
        if same_str(m[i].1.as_str(), "error") {
            errors = errors + 1;
        }
        let ghost before = files.deep_view();
        files.push(m[i].0.clone());
        assert(files.deep_view() =~= before.push(mv[i as int].0));
        assert(mv.take(i + 1).map_values(|x: MatchView| x.0) =~= mv.take(i as int).map_values(|x: MatchView| x.0).push(mv[i as int].0));
        i += 1;
    }
    assert(mv.take(i as int) =~= mv);
    let warnings = m.len() - errors;
    let uniq = distinct_sorted_exec(&files);
    let ghost all = uniq.deep_view();
    let mut shown: Vec<String> = Vec::new();
    let mut k: usize = 0;
    while k < uniq.len() && k < 3
        invariant
            k <= uniq.len(),
            k <= 3,
            all == uniq.deep_view(),
            shown.deep_view() == all.take(k as int),
        decreases uniq.len() - k,
    {
        let ghost before = shown.deep_view();
        let item = uniq[k].clone();
        shown.push(item);
        assert(shown.deep_view() =~= before.push(all[k as int]));
        assert(all.take(k + 1) =~= all.take(k as int).push(all[k as int]));
        k += 1;
    }
    assert(shown.deep_view() == first_n(all, 3)) by {
        if all.len() <= 3 {
            assert(all.take(k as int) =~= all);
        }
    }
    let mut s = String::new();
    if errors > 0 {
        push_decimal(&mut s, errors as u64);
        push_str(&mut s, " error(s)");
    }
    if warnings > 0 {
        if errors > 0 {
            push_str(&mut s, ", ");
        }
        push_decimal(&mut s, warnings as u64);
        push_str(&mut s, " warning(s)");
    }
    push_str(&mut s, " in ");
    push_str(&mut s, join_strs(&shown, ", ").as_str());
    assert(s@ =~= violation_summary(mv));
    s
}

fn tail_string(s: &str, n: usize) -> (r: String)
    ensures
        r@ == tail_chars(s@, n as nat),
{
    let v = chars_of(s);
    let mut out = String::new();
    let from: usize = if v.len() > n { v.len() - n } else { 0 };
    crate::text::push_range(&mut out, &v, from, v.len());
    assert(v@.subrange(from as int, v.len() as int) =~= tail_chars(s@, n as nat));
    out
}

/// The outcome of one rule run (see [`rule_outcome_spec`]); `matches` are
/// the `(file, severity)` pairs read from `ast-grep scan --json`.
pub fn rule_outcome(matches: &Option<Vec<(String, String)>>, success: bool, stderr: &str) -> (r: RuleOutcome)
    ensures
        rule_view(r) == rule_outcome_spec(match matches { Some(m) => Some(matches_view(m@)), None => None }, success, stderr@),
{
    match matches {
        Some(m) => {
            if m.len() > 0 {
                RuleOutcome::Violations(violation_summary_exec(m))
            } else {
                RuleOutcome::Clean
            }
        },
        None => {
            if success {
                RuleOutcome::Clean
            } else {
                let tail = tail_string(trim_string(stderr).as_str(), 200);
                let mut s = string_from("rule failed to run");
                if !tail.as_str().is_empty() {
                    push_str(&mut s, ": ");
                    push_str(&mut s, tail.as_str());
                }
                proof {
                    reveal_strlit("");
                }
                assert(s@ =~= "rule failed to run"@ + if tail@.len() == 0 { seq![] } else { ": "@ + tail@ });
                RuleOutcome::Error(s)
            }
        },
    }
}

pub open spec fn rule_problems(rs: Seq<(Seq<char>, (nat, Seq<char>))>) -> Seq<Seq<char>>
    decreases rs.len(),
{
    if rs.len() == 0 {
        seq![]
    } else {
        let rest = rule_problems(rs.drop_last());
        let (name, o) = rs.last();
        if o.0 == 0 { rest } else { rest.push(name + ": "@ + o.1) }
    }
}

pub open spec fn rules_view(rs: Seq<(String, RuleOutcome)>) -> Seq<(Seq<char>, (nat, Seq<char>))> {
    rs.map_values(|p: (String, RuleOutcome)| (p.0@, rule_view(p.1)))
}

/// Structural rules: nothing to enforce without rule files;
/// declared rules without ast-grep fail closed; otherwise every match is a
/// violation.
pub open spec fn rules_spec(configured: Seq<char>, rule_count: nat, sg_available: bool, rs: Seq<(Seq<char>, (nat, Seq<char>))>) -> (bool, Seq<char>) {
    if rule_count == 0 {
        (true, "no rules in "@ + configured + " — nothing to enforce"@)
    } else if !sg_available {
        (false, decimal(rule_count) + " rule(s) declared but ast-grep is absent — run `aicontext tools install ast-grep`"@)
    } else {
        let problems = rule_problems(rs);
        if problems.len() == 0 {
            (true, decimal((rs.len() - problems.len()) as nat) + " rule(s) executed, no violations"@)
        } else {
            (false, decimal(problems.len()) + " violation(s): "@ + join(problems, "; "@))
        }
    }
}

proof fn lemma_rule_problems_le(rs: Seq<(Seq<char>, (nat, Seq<char>))>)
    ensures
        rule_problems(rs).len() <= rs.len(),
    decreases rs.len(),
{
    if rs.len() > 0 {
        lemma_rule_problems_le(rs.drop_last());
    }
}

pub fn rules_verdict(configured: &str, rule_count: usize, sg_available: bool, outcomes: &Vec<(String, RuleOutcome)>) -> (r: (bool, String))
    ensures
        (r.0, r.1@) == rules_spec(configured@, rule_count as nat, sg_available, rules_view(outcomes@)),
{
    if rule_count == 0 {
        let mut s = string_from("no rules in ");
        push_str(&mut s, configured);
        push_str(&mut s, " — nothing to enforce");
        return (true, s);
    }
    if !sg_available {
        let mut s = String::new();
        push_decimal(&mut s, rule_count as u64);
        push_str(&mut s, " rule(s) declared but ast-grep is absent — run `aicontext tools install ast-grep`");
        return (false, s);
    }
    let ghost rv = rules_view(outcomes@);
    let mut problems: Vec<String> = Vec::new();
    let mut i: usize = 0;
    assert(rv.take(0) =~= seq![]);
    assert(problems.deep_view() =~= seq![]);
    while i < outcomes.len()
        invariant
            i <= outcomes.len(),
            rv == rules_view(outcomes@),
            problems.deep_view() == rule_problems(rv.take(i as int)),
        decreases outcomes.len() - i,
    {
        assert(rv.take(i + 1).drop_last() =~= rv.take(i as int));
        assert(rv.take(i + 1).last() == rv[i as int]);
        let ghost before = problems.deep_view();
        match &outcomes[i].1 {
            RuleOutcome::Clean => {},
            RuleOutcome::Violations(t) => {
                let mut m = outcomes[i].0.clone();
                push_str(&mut m, ": ");
                push_str(&mut m, t.as_str());
                problems.push(m);
                assert(problems.deep_view() =~= before.push(rv[i as int].0 + ": "@ + rv[i as int].1.1));
            },
            RuleOutcome::Error(t) => {
                let mut m = outcomes[i].0.clone();
                push_str(&mut m, ": ");
                push_str(&mut m, t.as_str());
                problems.push(m);
                assert(problems.deep_view() =~= before.push(rv[i as int].0 + ": "@ + rv[i as int].1.1));
            },
        }
        i += 1;
    }
    assert(rv.take(i as int) =~= rv);
    proof {
        lemma_rule_problems_le(rv);
    }
    if problems.len() == 0 {
        let mut s = String::new();
        push_decimal(&mut s, (outcomes.len() - problems.len()) as u64);
        push_str(&mut s, " rule(s) executed, no violations");
        (true, s)
    } else {
        let mut s = String::new();
        push_decimal(&mut s, problems.len() as u64);
        push_str(&mut s, " violation(s): ");
        push_str(&mut s, join_strs(&problems, "; ").as_str());
        (false, s)
    }
}

// ---------------------------------------------------------------------------
// The subproject manifest and routing gates
// ---------------------------------------------------------------------------

/// `.engineering/subprojects.yml` as `check` reads it.
#[derive(Debug, Clone)]
pub enum ManifestRead {
    /// No manifest.
    Absent,
    /// Not YAML of the expected shape, with the parser's message.
    Unparseable(String),
    /// Parsed: its `schema`, the keys outside the schema (top-level keys,
    /// or `path.key` inside an entry), and the entries in file order.
    Parsed { schema: String, unknown_keys: Vec<String>, entries: Vec<SubprojectEntry> },
}

pub open spec fn entry_paths(es: Seq<SubprojectEntry>) -> Seq<Seq<char>> {
    es.map_values(|e: SubprojectEntry| e.path@)
}

/// Paths of the entries whose status is neither `pending` nor `adopted`.
pub open spec fn bad_status(es: Seq<SubprojectEntry>) -> Seq<Seq<char>>
    decreases es.len(),
{
    if es.len() == 0 {
        seq![]
    } else {
        let rest = bad_status(es.drop_last());
        let st = es.last().status@;
        if st == "pending"@ || st == "adopted"@ { rest } else { rest.push(es.last().path@) }
    }
}

/// Number of entries with the given status.
pub open spec fn count_status(es: Seq<SubprojectEntry>, status: Seq<char>) -> nat
    decreases es.len(),
{
    if es.len() == 0 {
        0
    } else {
        count_status(es.drop_last(), status) + if es.last().status@ == status { 1nat } else { 0nat }
    }
}

/// Paths of the `adopted` entries whose directory holds no nested context
/// (`nested[i]`: the `i`-th entry's `<path>/.engineering/aicontext.toml`
/// exists).
pub open spec fn hollow_adopted(es: Seq<SubprojectEntry>, nested: Seq<bool>) -> Seq<Seq<char>>
    decreases es.len(),
{
    if es.len() == 0 {
        seq![]
    } else {
        let k = es.len() - 1;
        let rest = hollow_adopted(es.drop_last(), nested);
        if es.last().status@ == "adopted"@ && !(k < nested.len() && nested[k]) { rest.push(es.last().path@) } else { rest }
    }
}

/// The schema a manifest may declare: empty, or the known one.
pub open spec fn schema_known(schema: Seq<char>) -> bool {
    schema.len() == 0 || schema == crate::state::SUBPROJECTS_SCHEMA@
}

/// The shape gate: no manifest is nothing to validate and a future schema
/// is skipped; an unparseable manifest, unknown keys, or a status outside
/// `pending`/`adopted` fail.
pub open spec fn shape_finding(m: ManifestRead) -> FindingView {
    match m {
        ManifestRead::Absent => ("subprojects"@, true, "no subprojects manifest: nothing to validate"@),
        ManifestRead::Unparseable(e) => ("subprojects"@, false, "unparseable .engineering/subprojects.yml: "@ + e@),
        ManifestRead::Parsed { schema, unknown_keys, entries } => if !schema_known(schema@) {
            ("subprojects"@, true, "schema "@ + schema@ + " not understood; skipped"@)
        } else if unknown_keys.len() > 0 {
            ("subprojects"@, false, "unknown key(s): "@ + join(unknown_keys.deep_view(), ", "@))
        } else if bad_status(entries@).len() > 0 {
            ("subprojects"@, false, join(bad_status(entries@), ", "@) + ": status must be pending or adopted"@)
        } else {
            ("subprojects"@, true, decimal(entries.len() as nat) + " subproject(s) validated"@)
        },
    }
}

/// What reconciling the entries with the detected paths finds wrong:
/// detected paths without an entry, entries for no detected path, and
/// adoptions without a nested context.
pub open spec fn reconcile_problems(detected: Seq<Seq<char>>, es: Seq<SubprojectEntry>, nested: Seq<bool>) -> Seq<Seq<char>> {
    let missing = absent_from(detected, entry_paths(es));
    let stale = absent_from(entry_paths(es), detected);
    let hollow = hollow_adopted(es, nested);
    (if missing.len() > 0 { seq!["missing entries (add with status: pending): "@ + join(missing, ", "@)] } else { seq![] })
        + (if stale.len() > 0 { seq!["stale entries: "@ + join(stale, ", "@)] } else { seq![] })
        + (if hollow.len() > 0 {
        seq!["adopted without nested context (<path>/.engineering/aicontext.toml): "@ + join(hollow, ", "@)]
    } else {
        seq![]
    })
}

/// The routing gate, from two detected subprojects on: the routing block
/// is in `AGENTS.md`, the manifest exists, and its entries reconcile with
/// the detection both ways, every `adopted` one having a nested context;
/// `pending` entries are advisory.
pub open spec fn routing_finding(detected: Seq<Seq<char>>, m: ManifestRead, routing_present: bool, nested: Seq<bool>) -> FindingView {
    if detected.len() < 2 {
        ("subprojects routing"@, true, "fewer than 2 subprojects: no routing gates"@)
    } else if !routing_present {
        ("subprojects routing"@, false, "routing block missing from AGENTS.md; run `aicontext init`"@)
    } else {
        match m {
            ManifestRead::Absent => ("subprojects routing"@, false, "missing .engineering/subprojects.yml; run `aicontext init` to seed it"@),
            ManifestRead::Unparseable(_) => ("subprojects routing"@, false, "cannot reconcile an unparseable subprojects manifest"@),
            ManifestRead::Parsed { schema, entries, .. } => if !schema_known(schema@) {
                ("subprojects routing"@, true, "routing block present; manifest schema not understood, not reconciled"@)
            } else {
                let problems = reconcile_problems(detected, entries@, nested);
                if problems.len() > 0 {
                    ("subprojects routing"@, false, join(problems, "; "@))
                } else {
                    ("subprojects routing"@, true, "routing block present; adopted: "@ + decimal(count_status(entries@, "adopted"@))
                        + "; pending (advisory): "@ + decimal(count_status(entries@, "pending"@)))
                }
            },
        }
    }
}

proof fn lemma_no_adopted_no_hollow(es: Seq<SubprojectEntry>, nested: Seq<bool>)
    requires
        forall|i: int| 0 <= i < es.len() ==> (#[trigger] es[i]).status@ != "adopted"@,
    ensures
        hollow_adopted(es, nested).len() == 0,
    decreases es.len(),
{
    if es.len() > 0 {
        assert forall|i: int| 0 <= i < es.drop_last().len() implies (#[trigger] es.drop_last()[i]).status@ != "adopted"@ by {
            assert(es.drop_last()[i] == es[i]);
        }
        lemma_no_adopted_no_hollow(es.drop_last(), nested);
        assert(es.last() == es[es.len() - 1]);
    }
}

/// `pending` entries are advisory: with the routing block in place and a
/// manifest whose entries match the detected subprojects both ways, a
/// manifest without `adopted` entries passes the routing gate whatever
/// the nested contexts.
pub proof fn lemma_pending_entries_are_advisory(
    detected: Seq<Seq<char>>,
    schema: String,
    unknown_keys: Vec<String>,
    entries: Vec<SubprojectEntry>,
    nested: Seq<bool>,
)
    requires
        schema_known(schema@),
        absent_from(detected, entry_paths(entries@)).len() == 0,
        absent_from(entry_paths(entries@), detected).len() == 0,
        forall|i: int| 0 <= i < entries@.len() ==> (#[trigger] entries@[i]).status@ != "adopted"@,
    ensures
        routing_finding(detected, ManifestRead::Parsed { schema, unknown_keys, entries }, true, nested).1,
{
    lemma_no_adopted_no_hollow(entries@, nested);
    assert(reconcile_problems(detected, entries@, nested) =~= Seq::<Seq<char>>::empty());
}

fn bad_status_exec(es: &Vec<SubprojectEntry>) -> (r: Vec<String>)
    ensures
        r.deep_view() == bad_status(es@),
{
    let mut out: Vec<String> = Vec::new();
    let mut i: usize = 0;
    while i < es.len()
        invariant
            i <= es.len(),
            out.deep_view() == bad_status(es@.take(i as int)),
        decreases es.len() - i,
    {
        assert(es@.take(i + 1).drop_last() =~= es@.take(i as int));
        assert(es@.take(i + 1).last() == es@[i as int]);
        let st = es[i].status.as_str();
        if !(same_str(st, "pending") || same_str(st, "adopted")) {
            let ghost before = out.deep_view();
            out.push(es[i].path.clone());
            assert(out.deep_view() =~= before.push(es@[i as int].path@));
        }
        i += 1;
    }
    assert(es@.take(i as int) =~= es@);
    out
}

fn count_status_exec(es: &Vec<SubprojectEntry>, status: &str) -> (r: u64)
    ensures
        r == count_status(es@, status@),
{
    let mut n: u64 = 0;
    let mut i: usize = 0;
    while i < es.len()
        invariant
            i <= es.len(),
            n == count_status(es@.take(i as int), status@),
            n <= i,
        decreases es.len() - i,
    {
        assert(es@.take(i + 1).drop_last() =~= es@.take(i as int));
        assert(es@.take(i + 1).last() == es@[i as int]);
        if same_str(es[i].status.as_str(), status) {
            n = n + 1;
        }
        i += 1;
    }
    assert(es@.take(i as int) =~= es@);
    n
}

fn hollow_exec(es: &Vec<SubprojectEntry>, nested: &Vec<bool>) -> (r: Vec<String>)
    ensures
        r.deep_view() == hollow_adopted(es@, nested@),
{
    let mut out: Vec<String> = Vec::new();
    let mut i: usize = 0;
    while i < es.len()
        invariant
            i <= es.len(),
            out.deep_view() == hollow_adopted(es@.take(i as int), nested@),
        decreases es.len() - i,
    {
        assert(es@.take(i + 1).drop_last() =~= es@.take(i as int));
        assert(es@.take(i + 1).last() == es@[i as int]);
        let grounded = i < nested.len() && nested[i];
        if same_str(es[i].status.as_str(), "adopted") && !grounded {
            let ghost before = out.deep_view();
            out.push(es[i].path.clone());
            assert(out.deep_view() =~= before.push(es@[i as int].path@));
        }
        i += 1;
    }
    assert(es@.take(i as int) =~= es@);
    out
}

fn entry_paths_exec(es: &Vec<SubprojectEntry>) -> (r: Vec<String>)
    ensures
        r.deep_view() == entry_paths(es@),
{
    let mut out: Vec<String> = Vec::new();
    let mut i: usize = 0;
    while i < es.len()
        invariant
            i <= es.len(),
            out.deep_view() == entry_paths(es@.take(i as int)),
        decreases es.len() - i,
    {
        let ghost before = out.deep_view();
        out.push(es[i].path.clone());
        assert(out.deep_view() =~= before.push(es@[i as int].path@));
        assert(entry_paths(es@.take(i + 1)) =~= entry_paths(es@.take(i as int)).push(es@[i as int].path@));
        i += 1;
    }
    assert(es@.take(i as int) =~= es@);
    out
}

fn schema_known_exec(schema: &str) -> (r: bool)
    ensures
        r == schema_known(schema@),
{
    schema.is_empty() || same_str(schema, crate::state::SUBPROJECTS_SCHEMA)
}

/// The shape gate (see [`shape_finding`]).
pub fn manifest_shape(m: &ManifestRead) -> (r: Finding)
    ensures
        fv(r) == shape_finding(*m),
{
    match m {
        ManifestRead::Absent => finding("subprojects", true, string_from("no subprojects manifest: nothing to validate")),
        ManifestRead::Unparseable(e) => {
            let mut d = string_from("unparseable .engineering/subprojects.yml: ");
            push_str(&mut d, e.as_str());
            finding("subprojects", false, d)
        },
        ManifestRead::Parsed { schema, unknown_keys, entries } => {
            if !schema_known_exec(schema.as_str()) {
                let mut d = string_from("schema ");
                push_str(&mut d, schema.as_str());
                push_str(&mut d, " not understood; skipped");
                return finding("subprojects", true, d);
            }
            if unknown_keys.len() > 0 {
                let mut d = string_from("unknown key(s): ");
                push_str(&mut d, join_strs(unknown_keys, ", ").as_str());
                return finding("subprojects", false, d);
            }
            let bad = bad_status_exec(entries);
            if bad.len() > 0 {
                let mut d = join_strs(&bad, ", ");
                push_str(&mut d, ": status must be pending or adopted");
                return finding("subprojects", false, d);
            }
            let mut d = String::new();
            push_decimal(&mut d, entries.len() as u64);
            push_str(&mut d, " subproject(s) validated");
            proof {
                reveal_strlit("");
                assert(""@ =~= Seq::<char>::empty());
            }
            finding("subprojects", true, d)
        },
    }
}

fn reconcile_exec(detected: &Vec<String>, es: &Vec<SubprojectEntry>, nested: &Vec<bool>) -> (r: Vec<String>)
    ensures
        r.deep_view() == reconcile_problems(detected.deep_view(), es@, nested@),
{
    let paths = entry_paths_exec(es);
    let missing = absent_from_exec(detected, &paths);
    let stale = absent_from_exec(&paths, detected);
    let hollow = hollow_exec(es, nested);
    let mut out: Vec<String> = Vec::new();
    if missing.len() > 0 {
        let mut m = string_from("missing entries (add with status: pending): ");
        push_str(&mut m, join_strs(&missing, ", ").as_str());
        out.push(m);
    }
    let ghost o1 = out.deep_view();
    if stale.len() > 0 {
        let mut m = string_from("stale entries: ");
        push_str(&mut m, join_strs(&stale, ", ").as_str());
        out.push(m);
    }
    let ghost o2 = out.deep_view();
    if hollow.len() > 0 {
        let mut m = string_from("adopted without nested context (<path>/.engineering/aicontext.toml): ");
        push_str(&mut m, join_strs(&hollow, ", ").as_str());
        out.push(m);
    }
    assert(out.deep_view() =~= reconcile_problems(detected.deep_view(), es@, nested@));
    out
}

/// The routing gate (see [`routing_finding`]).
pub fn manifest_routing(detected: &Vec<String>, m: &ManifestRead, routing_present: bool, nested: &Vec<bool>) -> (r: Finding)
    ensures
        fv(r) == routing_finding(detected.deep_view(), *m, routing_present, nested@),
{
    if detected.len() < 2 {
        return finding("subprojects routing", true, string_from("fewer than 2 subprojects: no routing gates"));
    }
    if !routing_present {
        return finding("subprojects routing", false, string_from("routing block missing from AGENTS.md; run `aicontext init`"));
    }
    match m {
        ManifestRead::Absent => finding(
            "subprojects routing",
            false,
            string_from("missing .engineering/subprojects.yml; run `aicontext init` to seed it"),
        ),
        ManifestRead::Unparseable(_) => finding("subprojects routing", false, string_from("cannot reconcile an unparseable subprojects manifest")),
        ManifestRead::Parsed { schema, entries, .. } => {
            if !schema_known_exec(schema.as_str()) {
                return finding(
                    "subprojects routing",
                    true,
                    string_from("routing block present; manifest schema not understood, not reconciled"),
                );
            }
            let problems = reconcile_exec(detected, entries, nested);
            if problems.len() > 0 {
                return finding("subprojects routing", false, join_strs(&problems, "; "));
            }
            let mut d = string_from("routing block present; adopted: ");
            push_decimal(&mut d, count_status_exec(entries, "adopted"));
            push_str(&mut d, "; pending (advisory): ");
            push_decimal(&mut d, count_status_exec(entries, "pending"));
            finding("subprojects routing", true, d)
        },
    }
}

// ---------------------------------------------------------------------------
// The whole check
// ---------------------------------------------------------------------------

/// What `check` found on disk and in the scan, with the verdicts of the
/// sections that compare declarations against it.
pub struct CheckFacts {
    /// The repository manifest, or why it could not be loaded.
    pub config: Result<RepoConfig, String>,
    /// The `PROJECT_STATE.md` text, when readable.
    pub state_text: Option<String>,
    /// The generated block a fresh scan produces, or why the scan failed.
    pub fresh: Result<String, String>,
    /// The configured version source exists.
    pub version_source_exists: bool,
    /// The commands verdict, or why the consistency manifest could not be
    /// loaded.
    pub commands: Result<(bool, String), String>,
    /// The consistency verdict (used when the manifest loaded).
    pub consistency: (bool, String),
    /// The patterns file exists.
    pub patterns_exists: bool,
    /// The structural-rules verdict.
    pub rules: (bool, String),
    pub git: ToolInfo,
    pub sg: ToolInfo,
    /// Policy-aware adapter findings.
    pub adapters: Vec<Finding>,
    /// Engineering Platform detection of the repository.
    pub engineering: EngineeringDetection,
    /// The paths Engineering Platform declares that are no longer
    /// directories.
    pub missing_surfaces: Vec<String>,
    /// The subproject manifest as read.
    pub subprojects_manifest: ManifestRead,
    /// The subproject paths the scan detects.
    pub detected_subprojects: Vec<String>,
    /// `AGENTS.md` holds the routing block.
    pub routing_present: bool,
    /// For each manifest entry, in order: its directory holds
    /// `.engineering/aicontext.toml`.
    pub nested_contexts: Vec<bool>,
}

pub type FindingView = (Seq<char>, bool, Seq<char>);

pub open spec fn or_text(o: Option<String>, default: Seq<char>) -> Seq<char> {
    match o {
        Some(s) => s@,
        None => default,
    }
}

/// The findings of the state file: markers, freshness against the scan,
/// the version source, commands and consistency.
pub open spec fn state_findings(cfg: RepoConfig, f: CheckFacts) -> Seq<FindingView> {
    match f.state_text {
        Some(t) => {
            let marked = has_markers(t@);
            let state = ("state"@, marked, if marked { cfg.state.project_state@ } else { "missing generated/curated markers"@ });
            let fresh = match f.fresh {
                Ok(block) => {
                    let stale = freshness(block@) != freshness(current_generated_spec(t@));
                    ("freshness"@, !stale, if stale { "STALE_PROJECT_STATE: run `aicontext sync`"@ } else { "synchronized"@ })
                },
                Err(e) => ("freshness"@, false, "scan failed: "@ + e@),
            };
            let version = ("version"@, f.version_source_exists, cfg.version.source@);
            let rest = match f.commands {
                Ok(v) => seq![("commands"@, v.0, v.1@), ("consistency"@, f.consistency.0, f.consistency.1@)],
                Err(e) => seq![("commands"@, false, "cannot verify: "@ + e@), ("consistency"@, false, e@)],
            };
            seq![state, fresh, version] + rest
        },
        None => seq![("state"@, false, "missing "@ + cfg.state.project_state@), ("freshness"@, false, "no state to compare"@)],
    }
}

/// The Engineering Platform finding: a standalone repository passes;
/// understood contracts pass while every declared path is still a
/// directory and fail naming the ones that are gone; contracts that cannot
/// be used fail.
pub open spec fn engineering_finding(f: CheckFacts) -> FindingView {
    match f.engineering {
        EngineeringDetection::Absent => ("engineering"@, true, "standalone (no Engineering contracts)"@),
        EngineeringDetection::Supported(info) => if f.missing_surfaces.len() == 0 {
            ("engineering"@, true, "engineering-managed (recipe "@ + info.recipe@ + "): declared paths present"@)
        } else {
            ("engineering"@, false, "declared path(s) no longer on disk: "@ + join(f.missing_surfaces.deep_view(), ", "@))
        },
        EngineeringDetection::Unsupported { reason, .. } => ("engineering"@, false, "unsupported Engineering contracts: "@ + reason@),
    }
}

fn engineering_finding_exec(f: &CheckFacts) -> (r: Finding)
    ensures
        fv(r) == engineering_finding(*f),
{
    match &f.engineering {
        EngineeringDetection::Absent => finding("engineering", true, string_from("standalone (no Engineering contracts)")),
        EngineeringDetection::Supported(info) => {
            if f.missing_surfaces.len() == 0 {
                let mut d = string_from("engineering-managed (recipe ");
                push_str(&mut d, info.recipe.as_str());
                push_str(&mut d, "): declared paths present");
                finding("engineering", true, d)
            } else {
                let mut d = string_from("declared path(s) no longer on disk: ");
                push_str(&mut d, join_strs(&f.missing_surfaces, ", ").as_str());
                finding("engineering", false, d)
            }
        },
        EngineeringDetection::Unsupported { reason, .. } => {
            let mut d = string_from("unsupported Engineering contracts: ");
            push_str(&mut d, reason.as_str());
            finding("engineering", false, d)
        },
    }
}

/// Every finding of `check`, in order: schema, state-file findings and
/// patterns (with a loadable manifest), structural rules, required tools
/// (git), ast-grep (informational), Engineering Platform, the subproject
/// manifest and routing gates, then the adapters.
pub open spec fn check_findings(f: CheckFacts) -> Seq<FindingView> {
    let head = match f.config {
        Ok(cfg) => seq![("schema"@, cfg.schema@ == REPO_SCHEMA@, cfg.schema@)] + state_findings(cfg, f)
            + seq![("patterns references"@, f.patterns_exists, cfg.state.patterns@)],
        Err(e) => seq![("schema"@, false, e@)],
    };
    head + seq![
        ("structural rules"@, f.rules.0, f.rules.1@),
        ("required tools"@, f.git.available, or_text(f.git.version, "git missing"@)),
        ("ast-grep"@, true, or_text(f.sg.version, "absent — structural search degraded"@)),
        engineering_finding(f),
        shape_finding(f.subprojects_manifest),
        routing_finding(f.detected_subprojects.deep_view(), f.subprojects_manifest, f.routing_present, f.nested_contexts@),
    ] + f.adapters@.map_values(|x: Finding| fv(x))
}

fn text_or(o: &Option<String>, default: &str) -> (r: String)
    ensures
        r@ == or_text(*o, default@),
{
    match o {
        Some(s) => s.clone(),
        None => string_from(default),
    }
}

fn push_state_findings(out: &mut Vec<Finding>, cfg: &RepoConfig, f: &CheckFacts)
    ensures
        final(out)@.map_values(|x: Finding| fv(x)) == old(out)@.map_values(|x: Finding| fv(x)) + state_findings(*cfg, *f),
{
    let ghost start = out@.map_values(|x: Finding| fv(x));
    match &f.state_text {
        Some(t) => {
            let marked = has_state_markers(t.as_str());
            out.push(finding("state", marked, if marked { cfg.state.project_state.clone() } else { string_from("missing generated/curated markers") }));
            match &f.fresh {
                Ok(block) => {
                    let current = current_generated(t.as_str());
                    let stale = !same_str(freshness_key(block.as_str()).as_str(), freshness_key(current.as_str()).as_str());
                    out.push(finding("freshness", !stale, if stale { string_from("STALE_PROJECT_STATE: run `aicontext sync`") } else { string_from("synchronized") }));
                },
                Err(e) => {
                    let mut d = string_from("scan failed: ");
                    push_str(&mut d, e.as_str());
                    out.push(finding("freshness", false, d));
                },
            }
            out.push(finding("version", f.version_source_exists, cfg.version.source.clone()));
            match &f.commands {
                Ok((ok, detail)) => {
                    out.push(finding("commands", *ok, detail.clone()));
                    out.push(finding("consistency", f.consistency.0, f.consistency.1.clone()));
                },
                Err(e) => {
                    let mut d = string_from("cannot verify: ");
                    push_str(&mut d, e.as_str());
                    out.push(finding("commands", false, d));
                    out.push(finding("consistency", false, e.clone()));
                },
            }
        },
        None => {
            let mut d = string_from("missing ");
            push_str(&mut d, cfg.state.project_state.as_str());
            out.push(finding("state", false, d));
            out.push(finding("freshness", false, string_from("no state to compare")));
        },
    }
    assert(out@.map_values(|x: Finding| fv(x)) =~= start + state_findings(*cfg, *f));
}

/// Every finding of `check` (see [`check_findings`]).
pub fn run_check(f: &CheckFacts) -> (r: Vec<Finding>)
    ensures
        r@.map_values(|x: Finding| fv(x)) == check_findings(*f),
{
    let mut out: Vec<Finding> = Vec::new();
    match &f.config {
        Ok(cfg) => {
            out.push(finding("schema", same_str(cfg.schema.as_str(), REPO_SCHEMA), cfg.schema.clone()));
            let ghost s1 = out@.map_values(|x: Finding| fv(x));
            assert(s1 =~= seq![("schema"@, cfg.schema@ == REPO_SCHEMA@, cfg.schema@)]);
            push_state_findings(&mut out, cfg, f);
            let ghost s2 = out@.map_values(|x: Finding| fv(x));
            out.push(finding("patterns references", f.patterns_exists, cfg.state.patterns.clone()));
            assert(out@.map_values(|x: Finding| fv(x)) =~= s2.push(("patterns references"@, f.patterns_exists, cfg.state.patterns@)));
        },
        Err(e) => {
            out.push(finding("schema", false, e.clone()));
            assert(out@.map_values(|x: Finding| fv(x)) =~= seq![("schema"@, false, e@)]);
        },
    }
    let ghost head = out@.map_values(|x: Finding| fv(x));
    out.push(finding("structural rules", f.rules.0, f.rules.1.clone()));
    out.push(finding("required tools", f.git.available, text_or(&f.git.version, "git missing")));
    out.push(finding("ast-grep", true, text_or(&f.sg.version, "absent — structural search degraded")));
    out.push(engineering_finding_exec(f));
    out.push(manifest_shape(&f.subprojects_manifest));
    out.push(manifest_routing(&f.detected_subprojects, &f.subprojects_manifest, f.routing_present, &f.nested_contexts));
    let ghost mid = out@.map_values(|x: Finding| fv(x));
    assert(mid =~= head + seq![
        ("structural rules"@, f.rules.0, f.rules.1@),
        ("required tools"@, f.git.available, or_text(f.git.version, "git missing"@)),
        ("ast-grep"@, true, or_text(f.sg.version, "absent — structural search degraded"@)),
        engineering_finding(*f),
        shape_finding(f.subprojects_manifest),
        routing_finding(f.detected_subprojects.deep_view(), f.subprojects_manifest, f.routing_present, f.nested_contexts@),
    ]);
    let mut i: usize = 0;
    while i < f.adapters.len()
        invariant
            i <= f.adapters.len(),
            out@.map_values(|x: Finding| fv(x)) == mid + f.adapters@.take(i as int).map_values(|x: Finding| fv(x)),
        decreases f.adapters.len() - i,
    {
        let a = &f.adapters[i];
        let ghost before = out@.map_values(|x: Finding| fv(x));
        out.push(Finding { name: a.name.clone(), passed: a.passed, detail: a.detail.clone() });
        assert(out@.map_values(|x: Finding| fv(x)) =~= before.push(fv(*a)));
        assert(f.adapters@.take(i + 1).map_values(|x: Finding| fv(x)) =~= f.adapters@.take(i as int).map_values(|x: Finding| fv(x)).push(fv(*a)));
        i += 1;
    }
    assert(f.adapters@.take(i as int) =~= f.adapters@);
    assert(out@.map_values(|x: Finding| fv(x)) =~= check_findings(*f));
    out
}

/// `check` exits 0 when every finding passed, 1 otherwise.
pub fn check_exit_code(findings: &Vec<Finding>) -> (r: i32)
    ensures
        r == if (forall|i: int| 0 <= i < findings.len() ==> (#[trigger] findings@[i]).passed) { 0i32 } else { 1i32 },
{
    let mut i: usize = 0;
    while i < findings.len()
        invariant
            i <= findings.len(),
            forall|k: int| 0 <= k < i ==> (#[trigger] findings@[k]).passed,
        decreases findings.len() - i,
    {
        if !findings[i].passed {
            return 1;
        }
        i += 1;
    }
    0
}

/// The error of `check` in a repository without a manifest (exit 2).
pub fn not_initialized() -> (r: AiError)
    ensures
        r->Check_code@ == "NOT_INITIALIZED"@,
        r->Check_message@ == "missing "@ + REPO_MANIFEST@,
        r->Check_remediation matches Some(m) && m@ == "aicontext init"@,
{
    let mut m = string_from("missing ");
    push_str(&mut m, REPO_MANIFEST);
    AiError::new("NOT_INITIALIZED", m, Some("aicontext init"))
}


/// The text names one of `names` literally.
pub open spec fn mentions_any(text: Seq<char>, names: Seq<Seq<char>>) -> bool {
    exists|i: int| 0 <= i < names.len() && contains(text, #[trigger] names[i])
}

/// Paths, in order, of the docs (path, text) whose text names one of
/// `names`.
pub open spec fn mentioning(docs: Seq<(Seq<char>, Seq<char>)>, names: Seq<Seq<char>>) -> Seq<Seq<char>>
    decreases docs.len(),
{
    if docs.len() == 0 {
        seq![]
    } else {
        let rest = mentioning(docs.drop_last(), names);
        if mentions_any(docs.last().1, names) {
            rest.push(docs.last().0)
        } else {
            rest
        }
    }
}

pub open spec fn docs_view(docs: Seq<(String, String)>) -> Seq<(Seq<char>, Seq<char>)> {
    docs.map_values(|d: (String, String)| (d.0@, d.1@))
}

/// What `mentioning` finds in a prefix is a prefix of what it finds in a
/// longer one.
proof fn lemma_mentioning_prefix(docs: Seq<(Seq<char>, Seq<char>)>, names: Seq<Seq<char>>, i: int, j: int)
    requires
        0 <= i <= j <= docs.len(),
    ensures
        mentioning(docs.take(i), names).len() <= mentioning(docs.take(j), names).len(),
        mentioning(docs.take(j), names).take(mentioning(docs.take(i), names).len() as int) == mentioning(
            docs.take(i),
            names,
        ),
    decreases j - i,
{
    if i < j {
        lemma_mentioning_prefix(docs, names, i, j - 1);
        assert(docs.take(j).drop_last() =~= docs.take(j - 1));
        let a = mentioning(docs.take(i), names);
        let b = mentioning(docs.take(j - 1), names);
        let c = mentioning(docs.take(j), names);
        assert(c.take(b.len() as int) =~= b);
        assert(c.take(a.len() as int) =~= b.take(a.len() as int));
    } else {
        assert(mentioning(docs.take(i), names).take(mentioning(docs.take(i), names).len() as int) =~= mentioning(
            docs.take(i),
            names,
        ));
    }
}

fn mentions_any_exec(text: &str, names: &Vec<String>) -> (r: bool)
    ensures
        r == mentions_any(text@, names.deep_view()),
{
    let ghost nv = names.deep_view();
    let mut i: usize = 0;
    while i < names.len()
        invariant
            i <= names.len(),
            nv == names.deep_view(),
            forall|k: int| 0 <= k < i ==> !contains(text@, #[trigger] nv[k]),
        decreases names.len() - i,
    {
        if contains_str(text, names[i].as_str()) {
            assert(contains(text@, nv[i as int]));
            return true;
        }
        i += 1;
    }
    false
}

/// Docs still naming a stale command: the first five docs (in the order
/// given, as path and text) whose text names one of `names`, sorted.
pub fn stale_mentions(docs: &Vec<(String, String)>, names: &Vec<String>) -> (r: Vec<String>)
    ensures
        r.deep_view() == sorted_strings(first_n(mentioning(docs_view(docs@), names.deep_view()), 5)),
{
    let ghost dv = docs_view(docs@);
    let ghost nv = names.deep_view();
    let mut hits: Vec<String> = Vec::new();
    let mut i: usize = 0;
    while i < docs.len() && hits.len() < 5
        invariant
            i <= docs.len(),
            dv == docs_view(docs@),
            nv == names.deep_view(),
            hits.deep_view() == mentioning(dv.take(i as int), nv),
            hits.len() <= 5,
        decreases docs.len() - i,
    {
        assert(dv.take(i + 1).drop_last() =~= dv.take(i as int));
        assert(dv.take(i + 1).last() == (docs@[i as int].0@, docs@[i as int].1@));
        if mentions_any_exec(docs[i].1.as_str(), names) {
            hits.push(docs[i].0.clone());
            assert(hits.deep_view() =~= mentioning(dv.take(i as int), nv).push(docs@[i as int].0@));
        }
        i += 1;
    }
    proof {
        lemma_mentioning_prefix(dv, nv, i as int, dv.len() as int);
        assert(dv.take(dv.len() as int) =~= dv);
        let all = mentioning(dv, nv);
        if i < docs.len() {
            assert(hits.len() == 5);
            assert(first_n(all, 5) =~= hits.deep_view());
        } else {
            assert(dv.take(i as int) =~= dv);
        }
    }
    sort_strings(hits)
}


/// ASCII whitespace as `u8::is_ascii_whitespace` has it.
pub open spec fn ascii_ws(b: u8) -> bool {
    b == 0x20 || b == 0x09 || b == 0x0A || b == 0x0C || b == 0x0D
}

/// Output holding nothing but ASCII whitespace carries no match.
pub fn blank_output(bytes: &Vec<u8>) -> (r: bool)
    ensures
        r == forall|i: int| 0 <= i < bytes.len() ==> ascii_ws(#[trigger] bytes@[i]),
{
    let mut i: usize = 0;
    while i < bytes.len()
        invariant
            i <= bytes.len(),
            forall|k: int| 0 <= k < i ==> ascii_ws(#[trigger] bytes@[k]),
        decreases bytes.len() - i,
    {
        let b = bytes[i];
        if !(b == 0x20 || b == 0x09 || b == 0x0A || b == 0x0C || b == 0x0D) {
            return false;
        }
        i += 1;
    }
    true
}

/// The bytes from the first `[` to the last `]` (both kept), where a JSON
/// array may sit amid other output; `None` without both, or when the last
/// `]` does not come after the first `[`.
pub fn bracket_span(bytes: &Vec<u8>) -> (r: Option<(usize, usize)>)
    ensures
        match r {
            Some((s, e)) => s < e < bytes.len() && bytes@[s as int] == 0x5Bu8 && bytes@[e as int] == 0x5Du8
                && (forall|k: int| 0 <= k < s ==> bytes@[k] != 0x5Bu8)
                && (forall|k: int| e < k < bytes.len() ==> bytes@[k] != 0x5Du8),
            None => (forall|k: int| 0 <= k < bytes.len() ==> bytes@[k] != 0x5Bu8)
                || (forall|k: int| 0 <= k < bytes.len() ==> bytes@[k] != 0x5Du8)
                || exists|s: int, e: int| 0 <= e <= s < bytes.len() && bytes@[s] == 0x5Bu8
                    && bytes@[e] == 0x5Du8 && (forall|k: int| 0 <= k < s ==> bytes@[k] != 0x5Bu8)
                    && (forall|k: int| e < k < bytes.len() ==> bytes@[k] != 0x5Du8),
        },
{
    let mut s: usize = 0;
    while s < bytes.len() && bytes[s] != 0x5B
        invariant
            s <= bytes.len(),
            forall|k: int| 0 <= k < s ==> bytes@[k] != 0x5Bu8,
        decreases bytes.len() - s,
    {
        s += 1;
    }
    if s == bytes.len() {
        return None;
    }
    let mut e: usize = bytes.len();
    while e > 0 && bytes[e - 1] != 0x5D
        invariant
            e <= bytes.len(),
            forall|k: int| e <= k < bytes.len() ==> bytes@[k] != 0x5Du8,
        decreases e,
    {
        e -= 1;
    }
    if e == 0 {
        return None;
    }
    let last = e - 1;
    if last <= s {
        return None;
    }
    Some((s, last))
}

} // verus!
