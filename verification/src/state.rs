use vstd::prelude::*;

use crate::agent::{legacy_pointer, legacy_pointer_present, AGENTS_POINTER};
use crate::order::{sort_strings, sorted_strings, stable_order, stable_order_exec};
use crate::scan::{PackageInfo, ScanReport, Subproject};
use crate::text::{
    chars_of, clone_strings, collapse_ws, decimal, push_decimal, string_from, escape_pipes, escape_pipes_exec, find, head_unique, same_str, take_chars, words, join, lemma_distinct_markers, lemma_find_after, lemma_head_unique_no_overlap,
    lemma_no_occ_concat, lemma_no_occ_concat_head, lemma_no_occ_without_head, lemma_no_occ_sub, lemma_trim_newline,
    lemma_trim_sub, trim_start_len, join_strs, lines, lines_exec, starts_with_at, trim_bounds, no_self_overlap, occurs_in, push_all, push_char, push_range, push_str, same_chars, string_of, find_exec, find_from, lemma_find_from, lemma_find_from_is, occurs_at, starts_with, string_of_range,
    trim, trim_range, trim_start, contains,
};

verus! {

pub const GEN_START: &'static str = "<!-- aicontext:generated:start -->";
pub const GEN_END: &'static str = "<!-- aicontext:generated:end -->";
pub const CUR_START: &'static str = "<!-- aicontext:curated:start -->";
pub const CUR_END: &'static str = "<!-- aicontext:curated:end -->";
pub const ROUTING_START: &'static str = "<!-- aicontext:routing:start -->";
pub const ROUTING_END: &'static str = "<!-- aicontext:routing:end -->";
pub const CONTEXT_START: &'static str = "<!-- aicontext:context:start -->";
pub const CONTEXT_END: &'static str = "<!-- aicontext:context:end -->";

/// Character range `[s, e)` of the first `start ... end` block: `s` is the
/// first occurrence of `start`, `e` the end of the first `end` at or after it.
pub open spec fn block_range(t: Seq<char>, start: Seq<char>, end: Seq<char>) -> Option<(int, int)> {
    match find(t, start) {
        None => None,
        Some(s) => match find_from(t, end, s) {
            None => None,
            Some(k) => Some((s, k + end.len())),
        },
    }
}

/// Marker-inclusive text of the first `start ... end` block.
pub open spec fn block_of(t: Seq<char>, start: Seq<char>, end: Seq<char>) -> Option<Seq<char>> {
    match block_range(t, start, end) {
        None => None,
        Some((s, e)) => Some(t.subrange(s, e)),
    }
}

pub fn block_range_exec(t: &Vec<char>, start: &Vec<char>, end: &Vec<char>) -> (r: Option<(usize, usize)>)
    ensures
        match r {
            Some((s, e)) => block_range(t@, start@, end@) == Some((s as int, e as int)) && s <= e <= t.len(),
            None => block_range(t@, start@, end@) is None,
        },
{
    match find_exec(t, start, 0) {
        None => None,
        Some(s) => {
            match find_exec(t, end, s) {
                None => None,
                Some(k) => {
                    proof {
                        lemma_find_from(t@, start@, 0);
                        lemma_find_from(t@, end@, s as int);
                        assert(occurs_at(t@, end@, k as int));
                        assert(k + end@.len() <= t@.len());
                        assert(t@.len() == t.len());
                        assert(end@.len() == end.len());
                    }
                    Some((s, k + end.len()))
                },
            }
        },
    }
}

/// Marker-inclusive slice of `text` for the block delimited by `start` and
/// `end` (both markers must exist, in that order).
pub fn extract_block(text: &str, start: &str, end: &str) -> (r: Option<String>)
    ensures
        match r {
            Some(b) => block_of(text@, start@, end@) == Some(b@),
            None => block_of(text@, start@, end@) is None,
        },
{
    let t = chars_of(text);
    let sv = chars_of(start);
    let ev = chars_of(end);
    match block_range_exec(&t, &sv, &ev) {
        Some((s, e)) => Some(string_of_range(&t, s, e)),
        None => None,
    }
}


/// A level-1 ATX heading line (`# Something` or a bare `#`), ignoring indent.
pub open spec fn is_h1(line: Seq<char>) -> bool {
    starts_with(trim_start(line), seq!['#', ' ']) || trim(line) == seq!['#']
}

/// End of the line that starts at `off`: just past its `\n`, or the text end.
pub open spec fn line_end(t: Seq<char>, off: int) -> int {
    match find_from(t, seq!['\n'], off) {
        Some(k) => k + 1,
        None => t.len() as int,
    }
}

/// End offset (newline included) of the first level-1 heading line at or
/// after `off`, lines being split after each `\n`.
pub open spec fn h1_end_from(t: Seq<char>, off: int) -> Option<int>
    decreases t.len() - off,
{
    if off < 0 || off >= t.len() {
        None
    } else {
        let e = line_end(t, off);
        if e <= off || e > t.len() {
            None
        } else if is_h1(t.subrange(off, e)) {
            Some(e)
        } else {
            h1_end_from(t, e)
        }
    }
}

pub open spec fn h1_end(t: Seq<char>) -> Option<int> {
    h1_end_from(t, 0)
}

proof fn lemma_line_end(t: Seq<char>, off: int)
    requires
        0 <= off < t.len(),
    ensures
        off < line_end(t, off) <= t.len(),
{
    lemma_find_from(t, seq!['\n'], off);
}

proof fn lemma_h1_end_from_bounds(t: Seq<char>, off: int)
    ensures
        h1_end_from(t, off) matches Some(e) ==> 0 < e <= t.len(),
    decreases t.len() - off,
{
    if 0 <= off < t.len() {
        lemma_line_end(t, off);
        let e = line_end(t, off);
        if !is_h1(t.subrange(off, e)) {
            lemma_h1_end_from_bounds(t, e);
        }
    }
}

fn is_h1_range(t: &Vec<char>, from: usize, to: usize) -> (b: bool)
    requires
        from <= to <= t.len(),
    ensures
        b == is_h1(t@.subrange(from as int, to as int)),
{
    let (a, b) = trim_range(t, from, to);
    let ghost line = t@.subrange(from as int, to as int);
    let ghost ts = t@.subrange(a as int, to as int);
    let heading = to - a >= 2 && t[a] == '#' && t[a + 1] == ' ';
    assert(heading == starts_with(ts, seq!['#', ' '])) by {
        if to - a >= 2 {
            if t[a as int] == '#' && t[a + 1] == ' ' {
                assert(ts.subrange(0, 2) =~= seq!['#', ' ']);
            } else {
                assert(ts.subrange(0, 2)[0] == t@[a as int]);
                assert(ts.subrange(0, 2)[1] == t@[a + 1]);
            }
        }
    }
    let bare = b - a == 1 && t[a] == '#';
    assert(bare == (t@.subrange(a as int, b as int) == seq!['#'])) by {
        if b - a == 1 && t[a as int] == '#' {
            assert(t@.subrange(a as int, b as int) =~= seq!['#']);
        }
        if t@.subrange(a as int, b as int) == seq!['#'] {
            assert(seq!['#'].len() == 1);
            assert(seq!['#'][0] == '#');
            assert(b - a == 1);
            assert(t@.subrange(a as int, b as int)[0] == t@[a as int]);
        }
    }
    heading || bare
}

/// End offset (including the newline, when present) of the first line that
/// is a level-1 ATX heading (`# Something` or `#`), ignoring indent. Only
/// used for placement; headings inside fenced code blocks are not detected.
pub fn first_h1_line_end(t: &Vec<char>) -> (r: Option<usize>)
    ensures
        match r {
            Some(e) => h1_end(t@) == Some(e as int),
            None => h1_end(t@) is None,
        },
{
    let nl = vec!['\n'];
    let mut off: usize = 0;
    while off < t.len()
        invariant
            off <= t.len(),
            nl@ == seq!['\n'],
            h1_end(t@) == h1_end_from(t@, off as int),
        decreases t.len() - off,
    {
        let e = match find_exec(t, &nl, off) {
            Some(k) => {
                proof {
                    lemma_find_from(t@, nl@, off as int);
                }
                k + 1
            },
            None => t.len(),
        };
        proof {
            lemma_line_end(t@, off as int);
        }
        assert(e == line_end(t@, off as int));
        if is_h1_range(t, off, e) {
            return Some(e);
        }
        off = e;
    }
    None
}


/// Where [`upsert_block`] placed (or found) a marked block.
#[derive(Debug, Clone, Copy, PartialEq, Eq, Structural)]
pub enum Placement {
    /// The markers already existed; the block was replaced in place.
    InPlace,
    /// No markers: inserted immediately after the first level-1 heading.
    AfterFirstHeading,
    /// No markers and no heading: inserted at the very top (routing).
    Top,
    /// No markers and no heading: appended at the very end (context pointer).
    End,
}

pub fn placement_phrase(placement: Placement) -> (r: &'static str)
    ensures
        r@ == placement_phrase_spec(placement),
{
    match placement {
        Placement::InPlace => "refreshed in place",
        Placement::AfterFirstHeading => "inserted after the first heading",
        Placement::Top => "inserted at the top",
        Placement::End => "appended at the end",
    }
}

pub open spec fn placement_phrase_spec(placement: Placement) -> Seq<char> {
    match placement {
        Placement::InPlace => "refreshed in place"@,
        Placement::AfterFirstHeading => "inserted after the first heading"@,
        Placement::Top => "inserted at the top"@,
        Placement::End => "appended at the end"@,
    }
}

/// Deterministic block placement: markers present => the block between them
/// is replaced and every byte outside it kept; otherwise the block goes right
/// after the first level-1 heading (with one blank line around it); otherwise
/// to the very end when `at_end` (the context pointer) or the very top.
pub open spec fn upsert_spec(x: Seq<char>, r: Seq<char>, start: Seq<char>, end: Seq<char>, at_end: bool) -> (Seq<char>, Placement) {
    match block_range(x, start, end) {
        Some((s, e)) => (x.subrange(0, s) + r + x.subrange(e, x.len() as int), Placement::InPlace),
        None => match h1_end(x) {
            Some(le) => {
                let after = x.subrange(le, x.len() as int);
                let sep = if after.len() == 0 || after[0] == '\n' { seq!['\n'] } else { seq!['\n', '\n'] };
                (x.subrange(0, le) + seq!['\n'] + r + sep + after, Placement::AfterFirstHeading)
            },
            None => if at_end {
                if x.len() == 0 {
                    (r + seq!['\n'], Placement::End)
                } else if x.last() == '\n' {
                    (x + seq!['\n'] + r + seq!['\n'], Placement::End)
                } else {
                    (x + seq!['\n', '\n'] + r + seq!['\n'], Placement::End)
                }
            } else {
                (r + seq!['\n', '\n'] + x, Placement::Top)
            },
        },
    }
}

/// Places `rendered` in `existing`: see [`upsert_spec`]. Only the context
/// pointer (`start` being [`CONTEXT_START`]) goes to the end of a file
/// without a heading; every other block goes to the top.
pub fn upsert_block(existing: &str, rendered: &str, start: &str, end: &str) -> (r: (String, Placement))
    ensures
        (r.0@, r.1) == upsert_spec(existing@, rendered@, start@, end@, start@ == CONTEXT_START@),
{
    let x = chars_of(existing);
    let sv = chars_of(start);
    let ev = chars_of(end);
    if let Some((s, e)) = block_range_exec(&x, &sv, &ev) {
        let mut out = string_of_range(&x, 0, s);
        push_str(&mut out, rendered);
        push_range(&mut out, &x, e, x.len());
        return (out, Placement::InPlace);
    }
    if let Some(le) = first_h1_line_end(&x) {
        proof {
            lemma_h1_end_from_bounds(x@, 0);
        }
        let mut out = string_of_range(&x, 0, le);
        push_char(&mut out, '\n');
        push_str(&mut out, rendered);
        push_char(&mut out, '\n');
        let ghost after = x@.subrange(le as int, x.len() as int);
        if !(le == x.len() || x[le] == '\n') {
            push_char(&mut out, '\n');
        }
        push_range(&mut out, &x, le, x.len());
        assert(out@ == upsert_spec(existing@, rendered@, start@, end@, start@ == CONTEXT_START@).0);
        return (out, Placement::AfterFirstHeading);
    }
    if same_chars(&sv, &chars_of(CONTEXT_START)) {
        let mut out = string_of(&x);
        if x.len() > 0 {
            push_char(&mut out, '\n');
            if x[x.len() - 1] != '\n' {
                push_char(&mut out, '\n');
            }
        }
        push_str(&mut out, rendered);
        push_char(&mut out, '\n');
        return (out, Placement::End);
    }
    let mut out = String::new();
    push_str(&mut out, rendered);
    push_char(&mut out, '\n');
    push_char(&mut out, '\n');
    push_all(&mut out, &x);
    (out, Placement::Top)
}


/// A marker: non-empty, without a line break and without self-overlap.
pub open spec fn marker_ok(p: Seq<char>) -> bool {
    &&& p.len() > 0
    &&& no_self_overlap(p)
    &&& forall|i: int| 0 <= i < p.len() ==> p[i] != '\n'
}

/// A rendered block opens with `start` and its first `end` is its tail.
pub open spec fn block_ok(r: Seq<char>, start: Seq<char>, end: Seq<char>) -> bool {
    &&& starts_with(r, start)
    &&& end.len() <= r.len()
    &&& find(r, end) == Some(r.len() - end.len())
}

proof fn lemma_block_in_concat(pre: Seq<char>, r: Seq<char>, post: Seq<char>, start: Seq<char>, end: Seq<char>)
    requires
        marker_ok(start),
        block_ok(r, start, end),
        !occurs_in(pre, start),
    ensures
        block_range(pre + r + post, start, end) == Some((pre.len() as int, (pre.len() + r.len()) as int)),
        (pre + r + post).subrange(pre.len() as int, (pre.len() + r.len()) as int) == r,
{
    let out = pre + r + post;
    let p = pre.len() as int;
    let sl = start.len() as int;
    assert(out.subrange(p, p + r.len()) =~= r);
    // The block opens at p.
    assert(out.subrange(p, p + sl) =~= r.subrange(0, sl));
    assert(occurs_at(out, start, p));
    assert forall|j: int| 0 <= j < p implies !occurs_at(out, start, j) by {
        if occurs_at(out, start, j) {
            if j + sl <= p {
                assert(pre.subrange(j, j + sl) =~= out.subrange(j, j + sl));
                assert(occurs_at(pre, start, j));
            } else {
                let k = p - j;
                assert(0 < k < sl);
                assert(start.subrange(k, sl) =~= out.subrange(p, j + sl));
                assert(out.subrange(p, j + sl) =~= r.subrange(0, sl - k));
                assert(r.subrange(0, sl - k) =~= start.subrange(0, sl - k));
                assert(start.subrange(k, sl) == start.subrange(0, sl - k));
            }
        }
    }
    lemma_find_from_is(out, start, 0, p);
    // Its first end marker is the tail of the block.
    let el = end.len() as int;
    let q = p + r.len() - el;
    lemma_find_from(r, end, 0);
    assert(out.subrange(q, q + el) =~= r.subrange(r.len() - el, r.len() as int));
    assert(occurs_at(out, end, q));
    assert forall|j: int| p <= j < q implies !occurs_at(out, end, j) by {
        if occurs_at(out, end, j) {
            assert(r.subrange(j - p, j - p + el) =~= out.subrange(j, j + el));
            assert(occurs_at(r, end, j - p));
        }
    }
    lemma_find_from_is(out, end, p, q);
}

/// A first occurrence leaves no occurrence in the text before it.
proof fn lemma_prefix_before_find(x: Seq<char>, p: Seq<char>, s: int)
    requires
        find(x, p) == Some(s),
        p.len() > 0,
    ensures
        !occurs_in(x.subrange(0, s), p),
{
    lemma_find_from(x, p, 0);
    let pre = x.subrange(0, s);
    if occurs_in(pre, p) {
        let j = choose|j: int| occurs_at(pre, p, j);
        assert(x.subrange(j, j + p.len()) =~= pre.subrange(j, j + p.len()));
        assert(occurs_at(x, p, j));
        assert(0 <= j < s);
    }
}

/// Text without the marker, followed by line breaks, still lacks it.
proof fn lemma_no_marker_with_newlines(x: Seq<char>, n: Seq<char>, p: Seq<char>)
    requires
        marker_ok(p),
        !occurs_in(x, p),
        forall|i: int| 0 <= i < n.len() ==> n[i] == '\n',
    ensures
        !occurs_in(x + n, p),
{
    if occurs_in(x + n, p) {
        let j = choose|j: int| occurs_at(x + n, p, j);
        let l = p.len() as int;
        if j + l <= x.len() {
            assert(x.subrange(j, j + l) =~= (x + n).subrange(j, j + l));
            assert(occurs_at(x, p, j));
        } else {
            assert((x + n).subrange(j, j + l)[l - 1] == (x + n)[j + l - 1]);
            assert(p[l - 1] == '\n');
        }
    }
}

/// Upserting a block leaves exactly that block between the markers, so a
/// second upsert of the same block changes nothing: `init`/`sync` runs are
/// byte-identical once converged. Holds when the markers are proper markers,
/// the rendered block opens with `start` and ends at its first `end`, and
/// `existing` does not hold a dangling `start` without an `end` after it.
pub proof fn lemma_upsert_converges(x: Seq<char>, r: Seq<char>, start: Seq<char>, end: Seq<char>, at_end: bool)
    requires
        marker_ok(start),
        block_ok(r, start, end),
        block_range(x, start, end) is Some || find(x, start) is None,
    ensures
        block_of(upsert_spec(x, r, start, end, at_end).0, start, end) == Some(r),
        upsert_spec(upsert_spec(x, r, start, end, at_end).0, r, start, end, at_end).0
            == upsert_spec(x, r, start, end, at_end).0,
        upsert_spec(upsert_spec(x, r, start, end, at_end).0, r, start, end, at_end).1
            == Placement::InPlace,
{
    let out = upsert_spec(x, r, start, end, at_end).0;
    let pre: Seq<char>;
    let post: Seq<char>;
    match block_range(x, start, end) {
        Some((s, e)) => {
            lemma_find_from(x, start, 0);
            lemma_find_from(x, end, s);
            pre = x.subrange(0, s);
            post = x.subrange(e, x.len() as int);
            lemma_prefix_before_find(x, start, s);
        },
        None => {
            lemma_find_from(x, start, 0);
            assert(!occurs_in(x, start));
            match h1_end(x) {
                Some(le) => {
                    lemma_h1_end_from_bounds(x, 0);
                    let after = x.subrange(le, x.len() as int);
                    let sep = if after.len() == 0 || after[0] == '\n' { seq!['\n'] } else { seq!['\n', '\n'] };
                    pre = x.subrange(0, le) + seq!['\n'];
                    post = sep + after;
                    if occurs_in(x.subrange(0, le), start) {
                        let j = choose|j: int| occurs_at(x.subrange(0, le), start, j);
                        assert(x.subrange(j, j + start.len()) =~= x.subrange(0, le).subrange(j, j + start.len()));
                        assert(occurs_at(x, start, j));
                    }
                    lemma_no_marker_with_newlines(x.subrange(0, le), seq!['\n'], start);
                },
                None => {
                    if at_end {
                        if x.len() == 0 {
                            pre = seq![];
                            if occurs_in(pre, start) {
                                let j = choose|j: int| occurs_at(pre, start, j);
                            }
                        } else if x.last() == '\n' {
                            pre = x + seq!['\n'];
                            lemma_no_marker_with_newlines(x, seq!['\n'], start);
                        } else {
                            pre = x + seq!['\n', '\n'];
                            lemma_no_marker_with_newlines(x, seq!['\n', '\n'], start);
                        }
                        post = seq!['\n'];
                    } else {
                        pre = seq![];
                        if occurs_in(pre, start) {
                            let j = choose|j: int| occurs_at(pre, start, j);
                        }
                        post = seq!['\n', '\n'] + x;
                    }
                },
            }
        },
    }
    assert(out =~= pre + r + post);
    lemma_block_in_concat(pre, r, post, start, end);
    let p = pre.len() as int;
    assert(out.subrange(0, p) =~= pre);
    assert(out.subrange(p + r.len(), out.len() as int) =~= post);
}



/// Curated text seeded into a fresh `PROJECT_STATE.md`.
pub const DEFAULT_CURATED: &'static str = "## Purpose\nTBD — describe what this project is for.\n\n## Current capabilities\n- TBD\n\n## Constraints\n- TBD\n";

/// Title line (and blank line) of `PROJECT_STATE.md`.
pub const STATE_TITLE: &'static str = "# Project State\n\n";

/// `PROJECT_STATE.md`: title, the generated block, then the curated block.
pub open spec fn project_state_text(g: Seq<char>, c: Seq<char>) -> Seq<char> {
    STATE_TITLE@ + GEN_START@ + seq!['\n'] + g + GEN_END@ + seq!['\n', '\n'] + CUR_START@ + seq!['\n'] + c
        + CUR_END@ + seq!['\n']
}

pub open spec fn curated_or_default(curated: Option<Seq<char>>) -> Seq<char> {
    match curated {
        Some(c) => c,
        None => DEFAULT_CURATED@,
    }
}

/// Renders `PROJECT_STATE.md` from a generated block and curated text
/// (the default curated skeleton when there is none yet).
pub fn render_project_state(generated: &str, curated: Option<&str>) -> (r: String)
    ensures
        r@ == project_state_text(generated@, curated_or_default(match curated {
            Some(c) => Some(c@),
            None => None,
        })),
{
    let mut out = String::new();
    push_str(&mut out, STATE_TITLE);
    push_str(&mut out, GEN_START);
    push_char(&mut out, '\n');
    push_str(&mut out, generated);
    push_str(&mut out, GEN_END);
    push_char(&mut out, '\n');
    push_char(&mut out, '\n');
    push_str(&mut out, CUR_START);
    push_char(&mut out, '\n');
    match curated {
        Some(c) => push_str(&mut out, c),
        None => push_str(&mut out, DEFAULT_CURATED),
    }
    push_str(&mut out, CUR_END);
    push_char(&mut out, '\n');
    assert(out@ =~= project_state_text(generated@, curated_or_default(match curated {
        Some(c) => Some(c@),
        None => None,
    })));
    out
}

/// Text strictly between the first `start` marker and the first `end`
/// marker, when both exist and `end` does not come before `start` ends.
pub open spec fn between(x: Seq<char>, start: Seq<char>, end: Seq<char>) -> Option<Seq<char>> {
    match (find(x, start), find(x, end)) {
        (Some(s), Some(e)) => if e < s + start.len() {
            None
        } else {
            Some(x.subrange(s + start.len(), e))
        },
        _ => None,
    }
}

fn between_exec(x: &Vec<char>, start: &str, end: &str) -> (r: Option<(usize, usize)>)
    ensures
        match r {
            Some((a, b)) => a <= b <= x.len() && between(x@, start@, end@) == Some(x@.subrange(a as int, b as int)),
            None => between(x@, start@, end@) is None,
        },
{
    let sv = chars_of(start);
    let ev = chars_of(end);
    let s = find_exec(x, &sv, 0);
    let e = find_exec(x, &ev, 0);
    match (s, e) {
        (Some(s), Some(e)) => {
            proof {
                lemma_find_from(x@, sv@, 0);
                lemma_find_from(x@, ev@, 0);
                assert(occurs_at(x@, sv@, s as int));
                assert(x@.len() == x.len() && sv@.len() == sv.len());
            }
            let st = s + sv.len();
            if e < st {
                None
            } else {
                Some((st, e))
            }
        },
        _ => None,
    }
}

pub open spec fn curated_of(x: Seq<char>) -> Option<Seq<char>> {
    match between(x, CUR_START@, CUR_END@) {
        Some(b) => Some(trim(b) + seq!['\n']),
        None => None,
    }
}

/// The curated block body, trimmed, with one final newline.
pub fn extract_curated(existing: &str) -> (r: Option<String>)
    ensures
        match r {
            Some(c) => curated_of(existing@) == Some(c@),
            None => curated_of(existing@) is None,
        },
{
    let x = chars_of(existing);
    match between_exec(&x, CUR_START, CUR_END) {
        Some((a, b)) => {
            let (ta, tb) = trim_range(&x, a, b);
            let mut out = string_of_range(&x, ta, tb);
            push_char(&mut out, '\n');
            Some(out)
        },
        None => None,
    }
}

/// The generated block body (everything between its markers).
pub fn extract_generated(existing: &str) -> (r: Option<String>)
    ensures
        match r {
            Some(g) => between(existing@, GEN_START@, GEN_END@) == Some(g@),
            None => between(existing@, GEN_START@, GEN_END@) is None,
        },
{
    let x = chars_of(existing);
    match between_exec(&x, GEN_START, GEN_END) {
        Some((a, b)) => Some(string_of_range(&x, a, b)),
        None => None,
    }
}

pub open spec fn is_commit_line(l: Seq<char>) -> bool {
    starts_with(trim_start(l), "Last synchronized commit:"@)
}

pub open spec fn without_commit_lines(ls: Seq<Seq<char>>) -> Seq<Seq<char>>
    decreases ls.len(),
{
    if ls.len() == 0 {
        seq![]
    } else if is_commit_line(ls.last()) {
        without_commit_lines(ls.drop_last())
    } else {
        without_commit_lines(ls.drop_last()).push(ls.last())
    }
}

/// The generated block without its provenance line: lines of the trimmed
/// block, minus every `Last synchronized commit:` line, joined by `\n`.
pub open spec fn freshness(b: Seq<char>) -> Seq<char> {
    join(without_commit_lines(lines(trim(b))), seq!['\n'])
}

/// Freshness key for drift comparison: the generated block minus the
/// `Last synchronized commit:` line, which is provenance, not a fact.
pub fn freshness_key(block: &str) -> (r: String)
    ensures
        r@ == freshness(block@),
{
    let x = chars_of(block);
    let (a, b) = trim_bounds(&x);
    let t = {
        let mut t: Vec<char> = Vec::new();
        let mut i = a;
        while i < b
            invariant
                a <= i <= b <= x.len(),
                t@ == x@.subrange(a as int, i as int),
            decreases b - i,
        {
            t.push(x[i]);
            i += 1;
            assert(t@ =~= x@.subrange(a as int, i as int));
        }
        t
    };
    let ls = lines_exec(&t);
    let prefix = chars_of("Last synchronized commit:");
    let mut kept: Vec<String> = Vec::new();
    let ghost lv = ls@.map_values(|l: Vec<char>| l@);
    let mut i: usize = 0;
    assert(lv.subrange(0, 0) =~= Seq::<Seq<char>>::empty());
    assert(kept.deep_view() =~= Seq::<Seq<char>>::empty());
    while i < ls.len()
        invariant
            i <= ls.len(),
            lv == ls@.map_values(|l: Vec<char>| l@),
            prefix@ == "Last synchronized commit:"@,
            kept.deep_view() == without_commit_lines(lv.subrange(0, i as int)),
        decreases ls.len() - i,
    {
        let line = &ls[i];
        let (la, _lb) = trim_range(line, 0, line.len());
        assert(line@.subrange(0, line@.len() as int) =~= line@);
        let commit = starts_with_at(line, la, &prefix);
        proof {
            assert(lv.subrange(0, i + 1).drop_last() =~= lv.subrange(0, i as int));
            assert(lv.subrange(0, i + 1).last() == line@);
        }
        if !commit {
            let ghost before = kept.deep_view();
            kept.push(string_of(line));
            assert(kept.deep_view() =~= before.push(line@));
        }
        i += 1;
    }
    assert(lv.subrange(0, ls@.len() as int) =~= lv);
    proof {
        reveal_strlit("\n");
        assert("\n"@ =~= seq!['\n']);
        assert(t@ == trim(block@));
        assert(lv == lines(trim(block@)));
        assert(kept.deep_view() == without_commit_lines(lines(trim(block@))));
    }
    join_strs(&kept, "\n")
}

proof fn lemma_without_commit_concat(a: Seq<Seq<char>>, b: Seq<Seq<char>>)
    ensures
        without_commit_lines(a + b) == without_commit_lines(a) + without_commit_lines(b),
    decreases b.len(),
{
    if b.len() == 0 {
        assert(a + b =~= a);
        assert(without_commit_lines(a) + without_commit_lines(b) =~= without_commit_lines(a));
    } else {
        assert((a + b).drop_last() =~= a + b.drop_last());
        assert((a + b).last() == b.last());
        lemma_without_commit_concat(a, b.drop_last());
        if !is_commit_line(b.last()) {
            assert(without_commit_lines(a) + without_commit_lines(b.drop_last()).push(b.last())
                =~= (without_commit_lines(a) + without_commit_lines(b.drop_last())).push(b.last()));
        }
    }
}

/// The lines kept for freshness hold no commit line.
pub proof fn lemma_freshness_drops_commit_lines(ls: Seq<Seq<char>>)
    ensures
        forall|i: int| 0 <= i < without_commit_lines(ls).len() ==> !is_commit_line(#[trigger] without_commit_lines(ls)[i]),
    decreases ls.len(),
{
    if ls.len() > 0 {
        lemma_freshness_drops_commit_lines(ls.drop_last());
        let rest = without_commit_lines(ls.drop_last());
        if !is_commit_line(ls.last()) {
            assert forall|i: int| 0 <= i < rest.push(ls.last()).len() implies !is_commit_line(#[trigger] rest.push(ls.last())[i]) by {
                if i < rest.len() {
                    assert(rest.push(ls.last())[i] == rest[i]);
                }
            }
        }
    }
}

/// A line opening with the commit label (optionally ending in a carriage
/// return that `lines` drops) is a commit line.
proof fn lemma_label_line_is_commit(x: Seq<char>)
    requires
        x.len() >= 25,
        x.subrange(0, 25) == "Last synchronized commit:"@,
    ensures
        is_commit_line(x),
{
    reveal_strlit("Last synchronized commit:");
    assert(x[0] == x.subrange(0, 25)[0]);
    assert(!crate::text::is_ws('L'));
    assert(trim_start(x) == x);
}

/// The lines of a generated block made of `p`, a commit line for `h` and
/// `s`: those of the trimmed `p`, one commit line, then lines that depend
/// on `s` alone.
proof fn lemma_commit_block_lines(p: Seq<char>, h: Seq<char>, s: Seq<char>) -> (x: Seq<char>)
    requires
        p.len() == 0 || p.last() == '\n',
        crate::text::one_line(h),
    ensures
        is_commit_line(x),
        lines(trim(p + "Last synchronized commit: "@ + h + seq!['\n'] + s)) == lines(trim_start(p)) + seq![x] + (
            if exists|i: int| 0 <= i < s.len() && !crate::text::is_ws(s[i]) { lines(crate::text::trim_end(s)) } else { seq![] }),
{
    reveal_strlit("Last synchronized commit: ");
    reveal_strlit("Last synchronized commit:");
    let label = "Last synchronized commit:"@;
    let ls = "Last synchronized commit: "@;
    assert(ls =~= label + seq![' ']);
    let nl = seq!['\n'];
    let c = ls + h + nl;
    let a = p + ls + h + nl + s;
    assert(a =~= p + (c + s));
    assert(!crate::text::is_ws('L'));
    assert(!crate::text::is_ws(':'));
    assert(crate::text::is_ws('\n'));
    assert((c + s)[0] == 'L');
    crate::text::lemma_trim_start_concat(p, c + s);
    let pp = trim_start(p);
    crate::text::lemma_trim_start_keeps_newline(p);
    assert(trim(a) == crate::text::trim_end(pp + (c + s)));
    assert(pp + (c + s) =~= (pp + c) + s);
    crate::text::lemma_trim_end_concat(pp + c, s);
    assert(crate::text::one_line(ls + h)) by {
        assert forall|j: int| 0 <= j < (ls + h).len() implies (ls + h)[j] != '\n' by {
            if j >= ls.len() {
                assert((ls + h)[j] == h[j - ls.len()]);
            }
        }
    }
    if exists|i: int| 0 <= i < s.len() && !crate::text::is_ws(s[i]) {
        let t = crate::text::trim_end(s);
        assert(trim(a) == (pp + c) + t);
        crate::text::lemma_lines_line(ls + h);
        assert(c =~= (ls + h) + nl);
        crate::text::lemma_lines_append(c, t);
        let x = crate::text::strip_cr(ls + h);
        assert(x.subrange(0, 25) =~= label);
        lemma_label_line_is_commit(x);
        if pp.len() > 0 {
            assert((pp + c) + t =~= pp + (c + t));
            crate::text::lemma_lines_append(pp, c + t);
        } else {
            assert((pp + c) + t =~= c + t);
            assert(lines(pp) =~= Seq::<Seq<char>>::empty());
        }
        assert(lines(trim(a)) =~= lines(pp) + seq![x] + lines(t));
        x
    } else {
        assert(trim(a) == crate::text::trim_end(pp + c));
        let v = seq![' '] + h + nl;
        assert(pp + c =~= (pp + label) + v);
        crate::text::lemma_trim_end_concat(pp + label, v);
        let w: Seq<char> = if exists|i: int| 0 <= i < v.len() && !crate::text::is_ws(v[i]) {
            crate::text::trim_end(v)
        } else {
            seq![]
        };
        if exists|i: int| 0 <= i < v.len() && !crate::text::is_ws(v[i]) {
            assert(v =~= (seq![' '] + h) + nl);
            assert(crate::text::one_line(seq![' '] + h)) by {
                assert forall|j: int| 0 <= j < (seq![' '] + h).len() implies (seq![' '] + h)[j] != '\n' by {
                    if j >= 1 {
                        assert((seq![' '] + h)[j] == h[j - 1]);
                    }
                }
            }
            crate::text::lemma_trim_end_line(seq![' '] + h);
        } else {
            let q = pp + label;
            assert(q.last() == ':');
            assert(crate::text::trim_end(q) == q);
        }
        let x = label + w;
        assert(trim(a) == pp + x) by {
            assert((pp + label) + w =~= pp + x);
        }
        assert(crate::text::one_line(x)) by {
            assert forall|j: int| 0 <= j < x.len() implies x[j] != '\n' by {
                if j >= label.len() {
                    assert(x[j] == w[j - label.len()]);
                }
            }
        }
        crate::text::lemma_lines_single(x);
        assert(x.subrange(0, 25) =~= label);
        lemma_label_line_is_commit(x);
        if pp.len() > 0 {
            crate::text::lemma_lines_append(pp, x);
        } else {
            assert(pp + x =~= x);
            assert(lines(pp) =~= Seq::<Seq<char>>::empty());
        }
        assert(lines(trim(a)) =~= lines(pp) + seq![x] + seq![]);
        x
    }
}

/// A commit that changes no scanned fact is no drift: two generated blocks
/// that differ only in the hash on their `Last synchronized commit:` line
/// (placed at the start or after a line break, the hashes on one line) have
/// the same freshness key, and the key keeps no commit line.
pub proof fn lemma_commit_change_keeps_freshness(p: Seq<char>, h1: Seq<char>, h2: Seq<char>, s: Seq<char>)
    requires
        p.len() == 0 || p.last() == '\n',
        crate::text::one_line(h1),
        crate::text::one_line(h2),
    ensures
        freshness(p + "Last synchronized commit: "@ + h1 + seq!['\n'] + s)
            == freshness(p + "Last synchronized commit: "@ + h2 + seq!['\n'] + s),
        forall|i: int| 0 <= i < without_commit_lines(lines(trim(p + "Last synchronized commit: "@ + h1 + seq!['\n'] + s))).len()
            ==> !is_commit_line(#[trigger] without_commit_lines(lines(trim(p + "Last synchronized commit: "@ + h1 + seq!['\n'] + s)))[i]),
{
    let rest: Seq<Seq<char>> = if exists|i: int| 0 <= i < s.len() && !crate::text::is_ws(s[i]) {
        lines(crate::text::trim_end(s))
    } else {
        seq![]
    };
    let x1 = lemma_commit_block_lines(p, h1, s);
    let x2 = lemma_commit_block_lines(p, h2, s);
    let head = lines(trim_start(p));
    assert(without_commit_lines(seq![x1]) =~= Seq::<Seq<char>>::empty()) by {
        assert(seq![x1].drop_last() =~= Seq::<Seq<char>>::empty());
        assert(seq![x1].last() == x1);
        assert(is_commit_line(x1));
        assert(without_commit_lines(Seq::<Seq<char>>::empty()) =~= Seq::<Seq<char>>::empty());
    }
    assert(without_commit_lines(seq![x2]) =~= Seq::<Seq<char>>::empty()) by {
        assert(seq![x2].drop_last() =~= Seq::<Seq<char>>::empty());
        assert(seq![x2].last() == x2);
        assert(is_commit_line(x2));
        assert(without_commit_lines(Seq::<Seq<char>>::empty()) =~= Seq::<Seq<char>>::empty());
    }
    lemma_without_commit_concat(head, seq![x1]);
    lemma_without_commit_concat(head + seq![x1], rest);
    lemma_without_commit_concat(head, seq![x2]);
    lemma_without_commit_concat(head + seq![x2], rest);
    assert(without_commit_lines(head + seq![x1]) =~= without_commit_lines(head));
    assert(without_commit_lines(head + seq![x2]) =~= without_commit_lines(head));
    lemma_freshness_drops_commit_lines(lines(trim(p + "Last synchronized commit: "@ + h1 + seq!['\n'] + s)));
}

/// Contract id of `.engineering/subprojects.yml`.
pub const SUBPROJECTS_SCHEMA: &'static str = "aicontext/subprojects/v1";

/// One entry of `.engineering/subprojects.yml` (`path -> {purpose, status}`).
#[derive(Debug, Clone)]
pub struct SubprojectEntry {
    pub path: String,
    pub purpose: String,
    pub status: String,
}

/// `.engineering/subprojects.yml`: entries keyed by distinct paths, in
/// ascending path order.
#[derive(Debug, Clone)]
pub struct SubprojectsFile {
    pub schema: String,
    pub subprojects: Vec<SubprojectEntry>,
}

/// The opening of the seeded `.engineering/subprojects.yml`.
pub const SUBPROJECTS_SEED_HEADER: &'static str = "# Subproject adoption tracker (aicontext/subprojects/v1).\n# `init` seeds detected paths as `pending`; the adoption skill fills\n# `purpose` and moves entries to `adopted`. This file is never rewritten.\nschema: aicontext/subprojects/v1\nsubprojects:\n";

/// One pending entry per path, in order.
pub open spec fn seed_entries(paths: Seq<Seq<char>>) -> Seq<char>
    decreases paths.len(),
{
    if paths.len() == 0 {
        seq![]
    } else {
        seed_entries(paths.drop_last()) + "  "@ + paths.last() + ":\n    purpose: \"\"\n    status: pending\n"@
    }
}

/// What `init` does with the subproject manifest: an existing file is
/// never rewritten; without one, the detected paths (if any) are seeded as
/// `pending` with an empty purpose. Returns the text to write and the note.
pub open spec fn seed_subprojects_spec(exists: bool, paths: Seq<Seq<char>>) -> (Option<Seq<char>>, Seq<char>) {
    if exists {
        (None, "subprojects manifest left intact"@)
    } else if paths.len() == 0 {
        (None, "no subprojects detected; no manifest seeded"@)
    } else {
        (Some(SUBPROJECTS_SEED_HEADER@ + seed_entries(paths)), "subprojects manifest seeded with "@ + decimal(paths.len() as nat) + " entries"@)
    }
}

pub fn seed_subprojects(exists: bool, paths: &Vec<String>) -> (r: (Option<String>, String))
    ensures
        (match r.0 { Some(t) => Some(t@), None => None }, r.1@) == seed_subprojects_spec(exists, paths.deep_view()),
{
    if exists {
        return (None, string_from("subprojects manifest left intact"));
    }
    if paths.len() == 0 {
        return (None, string_from("no subprojects detected; no manifest seeded"));
    }
    let ghost pv = paths.deep_view();
    let mut text = string_from(SUBPROJECTS_SEED_HEADER);
    let mut i: usize = 0;
    assert(pv.take(0) =~= Seq::<Seq<char>>::empty());
    while i < paths.len()
        invariant
            i <= paths.len(),
            pv == paths.deep_view(),
            text@ == SUBPROJECTS_SEED_HEADER@ + seed_entries(pv.take(i as int)),
        decreases paths.len() - i,
    {
        assert(pv.take(i + 1).drop_last() =~= pv.take(i as int));
        assert(pv.take(i + 1).last() == pv[i as int]);
        push_str(&mut text, "  ");
        push_str(&mut text, paths[i].as_str());
        push_str(&mut text, ":\n    purpose: \"\"\n    status: pending\n");
        i += 1;
    }
    assert(pv.take(i as int) =~= pv);
    let mut note = string_from("subprojects manifest seeded with ");
    push_decimal(&mut note, paths.len() as u64);
    push_str(&mut note, " entries");
    (Some(text), note)
}

/// A parsed manifest is used only when its schema is empty or the known
/// one; any other schema is ignored rather than fatal.
pub fn accept_subprojects_file(file: SubprojectsFile) -> (r: Option<SubprojectsFile>)
    ensures
        (file.schema@.len() == 0 || file.schema@ == SUBPROJECTS_SCHEMA@) ==> r == Some(file),
        !(file.schema@.len() == 0 || file.schema@ == SUBPROJECTS_SCHEMA@) ==> r is None,
{
    if file.schema.as_str().is_empty() || same_str(file.schema.as_str(), SUBPROJECTS_SCHEMA) {
        Some(file)
    } else {
        None
    }
}

/// Purpose of the first entry for `path` (empty when there is none).
pub open spec fn purpose_in(entries: Seq<SubprojectEntry>, path: Seq<char>) -> Seq<char>
    decreases entries.len(),
{
    if entries.len() == 0 {
        seq![]
    } else if entries[0].path@ == path {
        entries[0].purpose@
    } else {
        purpose_in(entries.drop_first(), path)
    }
}

/// Purpose declared for `path` (empty when there is no manifest or entry).
pub open spec fn purpose_of(file: Option<&SubprojectsFile>, path: Seq<char>) -> Seq<char> {
    match file {
        None => seq![],
        Some(f) => purpose_in(f.subprojects@, path),
    }
}

fn purpose_lookup(file: Option<&SubprojectsFile>, path: &str) -> (r: String)
    ensures
        r@ == purpose_of(file, path@),
{
    match file {
        None => String::new(),
        Some(f) => {
            let ghost all = f.subprojects@;
            let mut i: usize = 0;
            assert(all.subrange(0, all.len() as int) =~= all);
            while i < f.subprojects.len()
                invariant
                    i <= f.subprojects.len(),
                    file == Some(f),
                    all == f.subprojects@,
                    purpose_in(all, path@) == purpose_in(all.subrange(i as int, all.len() as int), path@),
                decreases f.subprojects.len() - i,
            {
                assert(all.subrange(i as int, all.len() as int).drop_first() =~= all.subrange(i + 1, all.len() as int));
                assert(all.subrange(i as int, all.len() as int)[0] == all[i as int]);
                if same_str(f.subprojects[i].path.as_str(), path) {
                    let r = f.subprojects[i].purpose.clone();
                    assert(r@ == all[i as int].purpose@);
                    assert(purpose_in(all.subrange(i as int, all.len() as int), path@) == all[i as int].purpose@);
                    assert(purpose_in(all, path@) == r@);
                    return r;
                }
                i += 1;
            }
            String::new()
        },
    }
}

/// Placeholder for an empty table cell (an em dash).
pub const EMPTY_CELL: &'static str = "—";

/// Markdown table cell: whitespace runs collapse to single spaces, `|` is
/// escaped, an empty value becomes [`EMPTY_CELL`] and the result keeps at
/// most 120 characters.
pub open spec fn cell(v: Seq<char>) -> Seq<char> {
    let e = escape_pipes(join(words(v), seq![' ']));
    if e.len() == 0 {
        EMPTY_CELL@
    } else {
        take_chars(e, 120)
    }
}

/// Deterministic markdown table cell (see [`cell`]).
pub fn table_cell(value: &str) -> (r: String)
    ensures
        r@ == cell(value@),
{
    let v = chars_of(value);
    let collapsed = collapse_ws(&v);
    let cv = chars_of(collapsed.as_str());
    let e = escape_pipes_exec(&cv);
    if e.len() == 0 {
        let mut out = String::new();
        push_str(&mut out, EMPTY_CELL);
        out
    } else if e.len() <= 120 {
        assert(e@.subrange(0, e.len() as int) =~= e@);
        string_of_range(&e, 0, e.len())
    } else {
        string_of_range(&e, 0, 120)
    }
}

pub const TABLE_HEADER: &'static str = "| Path | Stack | Manifest | Entry context | Commands | Purpose |\n";
pub const TABLE_SEPARATOR: &'static str = "| --- | --- | --- | --- | --- | --- |\n";

pub open spec fn opt_text(o: Option<String>) -> Seq<char> {
    match o {
        Some(s) => s@,
        None => seq![],
    }
}

/// The manifest column: `<path>/<manifest>` or empty.
pub open spec fn manifest_column(s: Subproject) -> Seq<char> {
    match s.manifest {
        Some(m) => s.path@ + seq!['/'] + m@,
        None => seq![],
    }
}

/// The entry-context column: `<path>/AGENTS.md` when the subproject has one.
pub open spec fn entry_column(s: Subproject) -> Seq<char> {
    if s.agents_md {
        s.path@ + "/AGENTS.md"@
    } else {
        seq![]
    }
}

/// One table row for a subproject.
pub open spec fn row_text(s: Subproject, purpose: Seq<char>) -> Seq<char> {
    "| "@ + cell(s.path@) + " | "@ + cell(opt_text(s.manager)) + " | "@ + cell(manifest_column(s))
        + " | "@ + cell(entry_column(s)) + " | "@ + cell(join(s.commands.deep_view(), ", "@)) + " | "@
        + cell(purpose) + " |\n"@
}

/// Subprojects in stable ascending path order.
pub open spec fn by_path(subs: Seq<Subproject>) -> Seq<Subproject> {
    stable_order(subs.map_values(|s: Subproject| s.path@)).map_values(|i: int| subs[i])
}

pub open spec fn rows_text(subs: Seq<Subproject>, file: Option<&SubprojectsFile>) -> Seq<char>
    decreases subs.len(),
{
    if subs.len() == 0 {
        seq![]
    } else {
        rows_text(subs.drop_last(), file) + row_text(subs.last(), purpose_of(file, subs.last().path@))
    }
}

pub open spec fn strip_newlines_end(s: Seq<char>) -> Seq<char>
    decreases s.len(),
{
    if s.len() > 0 && s.last() == '\n' {
        strip_newlines_end(s.drop_last())
    } else {
        s
    }
}

/// The subproject table: header, separator and one row per subproject in
/// path order, without a final newline.
pub open spec fn subproject_table(subs: Seq<Subproject>, file: Option<&SubprojectsFile>) -> Seq<char> {
    strip_newlines_end(TABLE_HEADER@ + TABLE_SEPARATOR@ + rows_text(by_path(subs), file))
}

fn row_exec(s: &Subproject, purpose: &str) -> (r: String)
    ensures
        r@ == row_text(*s, purpose@),
{
    let mut out = String::new();
    push_str(&mut out, "| ");
    push_str(&mut out, table_cell(s.path.as_str()).as_str());
    push_str(&mut out, " | ");
    let manager = match &s.manager {
        Some(m) => m.clone(),
        None => String::new(),
    };
    push_str(&mut out, table_cell(manager.as_str()).as_str());
    push_str(&mut out, " | ");
    let manifest = match &s.manifest {
        Some(m) => {
            let mut t = s.path.clone();
            push_char(&mut t, '/');
            push_str(&mut t, m.as_str());
            t
        },
        None => String::new(),
    };
    push_str(&mut out, table_cell(manifest.as_str()).as_str());
    push_str(&mut out, " | ");
    let entry = if s.agents_md {
        let mut t = s.path.clone();
        push_str(&mut t, "/AGENTS.md");
        t
    } else {
        String::new()
    };
    push_str(&mut out, table_cell(entry.as_str()).as_str());
    push_str(&mut out, " | ");
    let commands = join_strs(&s.commands, ", ");
    push_str(&mut out, table_cell(commands.as_str()).as_str());
    push_str(&mut out, " | ");
    push_str(&mut out, table_cell(purpose).as_str());
    push_str(&mut out, " |\n");
    assert(manager@ == opt_text(s.manager));
    assert(manifest@ == manifest_column(*s));
    assert(entry@ == entry_column(*s));
    assert(out@ =~= row_text(*s, purpose@));
    out
}

fn strip_newlines_end_exec(s: String) -> (r: String)
    ensures
        r@ == strip_newlines_end(s@),
{
    let v = chars_of(s.as_str());
    let mut n = v.len();
    assert(v@.subrange(0, v.len() as int) =~= v@);
    while n > 0 && v[n - 1] == '\n'
        invariant
            n <= v.len(),
            strip_newlines_end(v@) == strip_newlines_end(v@.subrange(0, n as int)),
        decreases n,
    {
        assert(v@.subrange(0, n as int).drop_last() =~= v@.subrange(0, n - 1));
        n -= 1;
    }
    assert(v@.subrange(0, v.len() as int) =~= v@);
    string_of_range(&v, 0, n)
}

/// The single source of the subproject table (header, separator and rows),
/// shared by the `AGENTS.md` routing block and the generated block of
/// `PROJECT_STATE.md`, so the two tables never drift.
pub fn render_subproject_rows(subprojects: &Vec<Subproject>, file: Option<&SubprojectsFile>) -> (r: String)
    ensures
        r@ == subproject_table(subprojects@, file),
{
    let ghost fv = file;
    let mut keys: Vec<Vec<char>> = Vec::new();
    let mut k: usize = 0;
    while k < subprojects.len()
        invariant
            k <= subprojects.len(),
            keys@.len() == k,
            forall|j: int| 0 <= j < k ==> #[trigger] keys@[j]@ == subprojects@[j].path@,
        decreases subprojects.len() - k,
    {
        keys.push(chars_of(subprojects[k].path.as_str()));
        k += 1;
    }
    assert(keys@.map_values(|v: Vec<char>| v@) =~= subprojects@.map_values(|s: Subproject| s.path@));
    let order = stable_order_exec(&keys);
    let ghost ordered = by_path(subprojects@);
    proof {
        let sm = stable_order(subprojects@.map_values(|s: Subproject| s.path@));
        assert(sm == order@.map_values(|i: usize| i as int));
        assert forall|j: int| 0 <= j < order@.len() implies #[trigger] ordered[j] == subprojects@[order@[j] as int] by {
            assert(sm[j] == order@[j] as int);
        }
    }
    let mut out = String::new();
    push_str(&mut out, TABLE_HEADER);
    push_str(&mut out, TABLE_SEPARATOR);
    let ghost head = TABLE_HEADER@ + TABLE_SEPARATOR@;
    let mut i: usize = 0;
    assert(ordered.subrange(0, 0) =~= Seq::<Subproject>::empty());
    while i < order.len()
        invariant
            i <= order.len(),
            order@.len() == subprojects@.len(),
            ordered.len() == order@.len(),
            forall|j: int| 0 <= j < order@.len() ==> order@[j] < subprojects@.len(),
            forall|j: int| 0 <= j < order@.len() ==> #[trigger] ordered[j] == subprojects@[order@[j] as int],
            out@ == head + rows_text(ordered.subrange(0, i as int), fv),
            fv == file,
        decreases order.len() - i,
    {
        let s = &subprojects[order[i]];
        let purpose = purpose_lookup(file, s.path.as_str());
        let row = row_exec(s, purpose.as_str());
        proof {
            let pre = ordered.subrange(0, i as int);
            let nxt = ordered.subrange(0, i + 1);
            assert(nxt.drop_last() =~= pre);
            assert(nxt.last() == *s);
            assert(rows_text(nxt, fv) == rows_text(nxt.drop_last(), fv) + row_text(nxt.last(), purpose_of(fv, nxt.last().path@)));
            assert(purpose@ == purpose_of(fv, s.path@));
            assert(rows_text(nxt, fv) == rows_text(pre, fv) + row@);
        }
        push_str(&mut out, row.as_str());
        i += 1;
    }
    assert(ordered.subrange(0, order@.len() as int) =~= ordered);
    strip_newlines_end_exec(out)
}

/// The router exists only when there is a choice to route.
pub const ROUTING_MIN_SUBPROJECTS: usize = 2;

pub const ROUTING_HEAD: &'static str = "\n## Subprojects — read exactly one\n\nThis repository has ";
pub const ROUTING_COUNT_TAIL: &'static str = " subprojects. Do not explore the tree broadly.\n\n";
pub const ROUTING_RULES: &'static str = "\n\nRules:\n\n- Identify the subproject that owns your task's files and read only its entry context.\n- A file belongs to exactly one subproject; that subproject's `AGENTS.md` governs it.\n- Cross-cutting work: this block plus `.engineering/PROJECT_STATE.md`, nothing else.\n\n> Generated by `aicontext sync`. Do not edit inside this block.\n";

/// The marked router for the root `AGENTS.md`.
pub open spec fn routing_block_text(subs: Seq<Subproject>, file: Option<&SubprojectsFile>) -> Seq<char> {
    ROUTING_START@ + ROUTING_HEAD@ + decimal(subs.len()) + ROUTING_COUNT_TAIL@ + subproject_table(subs, file)
        + ROUTING_RULES@ + ROUTING_END@
}

/// The marked router inserted in the root `AGENTS.md`.
pub fn render_routing_block(subprojects: &Vec<Subproject>, file: Option<&SubprojectsFile>) -> (r: String)
    ensures
        r@ == routing_block_text(subprojects@, file),
{
    let mut out = string_from(ROUTING_START);
    push_str(&mut out, ROUTING_HEAD);
    push_decimal(&mut out, subprojects.len() as u64);
    push_str(&mut out, ROUTING_COUNT_TAIL);
    push_str(&mut out, render_subproject_rows(subprojects, file).as_str());
    push_str(&mut out, ROUTING_RULES);
    push_str(&mut out, ROUTING_END);
    out
}

/// The marked repository-context pointer: the legacy pointer body inside
/// context markers.
pub open spec fn context_block_text() -> Seq<char> {
    CONTEXT_START@ + seq!['\n'] + AGENTS_POINTER@ + CONTEXT_END@
}

pub fn render_context_block() -> (r: String)
    ensures
        r@ == context_block_text(),
{
    let mut out = string_from(CONTEXT_START);
    push_char(&mut out, '\n');
    push_str(&mut out, AGENTS_POINTER);
    push_str(&mut out, CONTEXT_END);
    out
}

/// How `init`/`sync` may treat `AGENTS.md`.
#[derive(Debug, Clone, Copy, PartialEq, Eq, Structural)]
pub enum RoutingMode {
    /// `init`: may create the file and insert missing blocks.
    Init,
    /// `sync`: refreshes blocks that already exist; never creates or inserts.
    Sync,
    /// `sync --check`: reports drift only, never writes.
    Report,
}

/// Result of the `AGENTS.md` routing update: the text to write, if any,
/// and the human note.
pub struct RoutingOutcome {
    pub write: Option<String>,
    pub note: String,
}

/// Context-pointer step: new text, whether it changed, notes.
pub open spec fn context_step(t: Seq<char>, mode: RoutingMode, legacy: bool) -> (Seq<char>, bool, Seq<Seq<char>>) {
    let ctx = context_block_text();
    if block_of(t, CONTEXT_START@, CONTEXT_END@) is Some {
        if block_of(t, CONTEXT_START@, CONTEXT_END@) != Some(ctx) {
            if mode != RoutingMode::Report {
                (upsert_spec(t, ctx, CONTEXT_START@, CONTEXT_END@, true).0, true, seq!["context pointer block refreshed"@])
            } else {
                (t, false, seq!["context pointer block stale; run `aicontext sync`"@])
            }
        } else {
            (t, false, seq![])
        }
    } else if legacy {
        (t, false, seq!["legacy pointer left untouched (unmarked)"@])
    } else if mode == RoutingMode::Init {
        let (n, p) = upsert_spec(t, ctx, CONTEXT_START@, CONTEXT_END@, true);
        if n != t {
            (n, true, seq!["context pointer block "@ + placement_phrase_spec(p)])
        } else {
            (t, false, seq![])
        }
    } else {
        (t, false, seq!["context pointer block missing; run `aicontext init`"@])
    }
}

/// Routing step: new text, whether it changed, notes.
pub open spec fn routing_step(t: Seq<char>, routing: Seq<char>, mode: RoutingMode) -> (Seq<char>, bool, Seq<Seq<char>>) {
    match block_of(t, ROUTING_START@, ROUTING_END@) {
        Some(found) => if found == routing {
            (t, false, seq!["routing block already up to date"@])
        } else if mode != RoutingMode::Report {
            let (n, p) = upsert_spec(t, routing, ROUTING_START@, ROUTING_END@, false);
            (n, true, seq!["routing block "@ + placement_phrase_spec(p)])
        } else {
            (t, false, seq!["routing block stale; run `aicontext sync`"@])
        },
        None => if mode == RoutingMode::Init {
            let (n, p) = upsert_spec(t, routing, ROUTING_START@, ROUTING_END@, false);
            (n, true, seq!["routing block "@ + placement_phrase_spec(p)])
        } else {
            (t, false, seq!["routing block missing; run `aicontext init`"@])
        },
    }
}

/// What the routing update writes to `AGENTS.md` (`None`: nothing) and
/// reports, given its current text (`None`: no file).
pub open spec fn routing_update(existing: Option<Seq<char>>, n_subprojects: nat, routing: Seq<char>, mode: RoutingMode) -> (Option<Seq<char>>, Seq<char>) {
    if n_subprojects < 2 {
        let has_block = match existing {
            Some(t) => block_of(t, ROUTING_START@, ROUTING_END@) is Some,
            None => false,
        };
        (None, if has_block {
            "AGENTS.md routing block left intact (fewer than 2 subprojects)"@
        } else {
            "AGENTS.md untouched: fewer than 2 subprojects"@
        })
    } else {
        match existing {
            None => if mode != RoutingMode::Init {
                (None, "AGENTS.md absent: no routing block to refresh"@)
            } else {
                let created = upsert_spec(seq![], context_block_text(), CONTEXT_START@, CONTEXT_END@, true).0;
                (Some(upsert_spec(created, routing, ROUTING_START@, ROUTING_END@, false).0), "AGENTS.md created with context and routing blocks"@)
            },
            Some(t) => {
                let (t1, c1, n1) = context_step(t, mode, legacy_pointer(t));
                let (t2, c2, n2) = routing_step(t1, routing, mode);
                ((if (c1 || c2) && mode != RoutingMode::Report { Some(t2) } else { None }), "AGENTS.md: "@ + join(n1 + n2, "; "@))
            },
        }
    }
}

fn note_with_phrase(prefix: &str, p: Placement) -> (r: String)
    ensures
        r@ == prefix@ + placement_phrase_spec(p),
{
    let mut out = string_from(prefix);
    push_str(&mut out, placement_phrase(p));
    out
}

proof fn lemma_start_markers_differ()
    ensures
        ROUTING_START@ != CONTEXT_START@,
        CONTEXT_START@ == CONTEXT_START@,
{
    reveal_strlit("<!-- aicontext:routing:start -->");
    reveal_strlit("<!-- aicontext:context:start -->");
    assert(ROUTING_START@[15] != CONTEXT_START@[15]);
}

/// Keeps the marked blocks of the root `AGENTS.md` current: only bytes
/// between markers are rewritten, `sync` never creates the file or inserts
/// a missing block, `sync --check` never writes, and a legacy unmarked
/// pointer is reported, never rewritten (see [`routing_update`]).
pub fn update_agents_routing(existing: Option<&str>, subprojects: &Vec<Subproject>, file: Option<&SubprojectsFile>, mode: RoutingMode) -> (r: RoutingOutcome)
    ensures
        (match r.write { Some(t) => Some(t@), None => None }, r.note@) == routing_update(match existing {
            Some(t) => Some(t@),
            None => None,
        }, subprojects@.len(), routing_block_text(subprojects@, file), mode),
{
    proof {
        lemma_start_markers_differ();
    }
    if subprojects.len() < ROUTING_MIN_SUBPROJECTS {
        let has_block = match existing {
            Some(t) => extract_block(t, ROUTING_START, ROUTING_END).is_some(),
            None => false,
        };
        let note = if has_block {
            string_from("AGENTS.md routing block left intact (fewer than 2 subprojects)")
        } else {
            string_from("AGENTS.md untouched: fewer than 2 subprojects")
        };
        return RoutingOutcome { write: None, note };
    }
    let routing = render_routing_block(subprojects, file);
    let text = match existing {
        None => {
            if mode != RoutingMode::Init {
                return RoutingOutcome { write: None, note: string_from("AGENTS.md absent: no routing block to refresh") };
            }
            proof {
                reveal_strlit("");
                assert(""@ =~= Seq::<char>::empty());
            }
            let (created, _) = upsert_block("", render_context_block().as_str(), CONTEXT_START, CONTEXT_END);
            let (created, _) = upsert_block(created.as_str(), routing.as_str(), ROUTING_START, ROUTING_END);
            return RoutingOutcome {
                write: Some(created),
                note: string_from("AGENTS.md created with context and routing blocks"),
            };
        },
        Some(t) => t,
    };
    let write = mode != RoutingMode::Report;
    let legacy = legacy_pointer_present(text);
    let mut current = string_from(text);
    let mut changed = false;
    let mut notes: Vec<String> = Vec::new();
    let ctx = render_context_block();
    let found_ctx = extract_block(current.as_str(), CONTEXT_START, CONTEXT_END);
    if found_ctx.is_some() {
        let same = match &found_ctx {
            Some(f) => same_str(f.as_str(), ctx.as_str()),
            None => false,
        };
        if !same {
            if write {
                let (next, _) = upsert_block(current.as_str(), ctx.as_str(), CONTEXT_START, CONTEXT_END);
                current = next;
                changed = true;
                notes.push(string_from("context pointer block refreshed"));
            } else {
                notes.push(string_from("context pointer block stale; run `aicontext sync`"));
            }
        }
    } else if legacy {
        notes.push(string_from("legacy pointer left untouched (unmarked)"));
    } else if mode == RoutingMode::Init {
        let (next, placement) = upsert_block(current.as_str(), ctx.as_str(), CONTEXT_START, CONTEXT_END);
        if !same_str(next.as_str(), current.as_str()) {
            current = next;
            changed = true;
            notes.push(note_with_phrase("context pointer block ", placement));
        }
    } else {
        notes.push(string_from("context pointer block missing; run `aicontext init`"));
    }
    let ghost t1 = current@;
    let ghost n1 = notes.deep_view();
    let ghost c1 = changed;
    assert((t1, c1, n1) == context_step(text@, mode, legacy_pointer(text@)));
    match extract_block(current.as_str(), ROUTING_START, ROUTING_END) {
        Some(found) => {
            if same_str(found.as_str(), routing.as_str()) {
                notes.push(string_from("routing block already up to date"));
            } else if write {
                let (next, placement) = upsert_block(current.as_str(), routing.as_str(), ROUTING_START, ROUTING_END);
                current = next;
                changed = true;
                notes.push(note_with_phrase("routing block ", placement));
            } else {
                notes.push(string_from("routing block stale; run `aicontext sync`"));
            }
        },
        None => {
            if mode == RoutingMode::Init {
                let (next, placement) = upsert_block(current.as_str(), routing.as_str(), ROUTING_START, ROUTING_END);
                current = next;
                changed = true;
                notes.push(note_with_phrase("routing block ", placement));
            } else {
                notes.push(string_from("routing block missing; run `aicontext init`"));
            }
        },
    }
    let ghost r2 = routing_step(t1, routing@, mode);
    assert(current@ == r2.0);
    assert(notes.deep_view() =~= n1 + r2.2);
    assert(changed == (c1 || r2.1));
    let mut note = string_from("AGENTS.md: ");
    push_str(&mut note, join_strs(&notes, "; ").as_str());
    RoutingOutcome { write: if changed && write { Some(current) } else { None }, note }
}

pub open spec fn package_lines(ps: Seq<PackageInfo>) -> Seq<char>
    decreases ps.len(),
{
    if ps.len() == 0 {
        seq![]
    } else {
        let p = ps.last();
        package_lines(ps.drop_last()) + "Package manager: "@ + p.manager@ + " ("@ + p.manifest@ + ")\n"@
            + if p.workspaces.len() > 0 {
            "Workspaces: "@ + decimal(p.workspaces.len() as nat) + seq!['\n']
        } else {
            seq![]
        }
    }
}

/// `- item\n` for each item.
pub open spec fn bullet_lines(items: Seq<Seq<char>>) -> Seq<char>
    decreases items.len(),
{
    if items.len() == 0 {
        seq![]
    } else {
        bullet_lines(items.drop_last()) + "- "@ + items.last() + seq!['\n']
    }
}

pub open spec fn generated_head(report: ScanReport) -> Seq<char> {
    "Last synchronized commit: "@ + (match report.git.short_head { Some(h) => h@, None => "unknown"@ }) + seq!['\n']
        + (if report.version_candidates.len() > 0 {
        "Version: "@ + report.version_candidates@[0].version@ + " ("@ + report.version_candidates@[0].source@ + ")\n"@
    } else {
        seq![]
    }) + origin_line(report.engineering)
}

/// The origin of an Engineering-managed repository, as a compact reference
/// (none for a standalone one).
pub open spec fn origin_line(e: Option<crate::scan::EngineeringSummary>) -> Seq<char> {
    match e {
        Some(x) => "Origin: "@ + x.origin@ + (match x.recipe { Some(r) => " (recipe "@ + r@ + ")"@, None => seq![] }) + seq!['\n'],
        None => seq![],
    }
}

pub open spec fn generated_counts(report: ScanReport, unit_tests: nat, integration_tests: nat) -> Seq<char> {
    "Complexity: "@ + report.complexity.profile@ + seq!['\n'] + "Source files: "@ + decimal(report.complexity.source_files as nat)
        + " | LOC: ~"@ + decimal(report.complexity.loc as nat) + seq!['\n'] + "Test functions: "@ + decimal(unit_tests + integration_tests)
        + " (src: "@ + decimal(unit_tests) + ", tests: "@ + decimal(integration_tests) + ")\n"@
}

pub open spec fn generated_tail(report: ScanReport, file: Option<&SubprojectsFile>) -> Seq<char> {
    "\nImportant paths:\n\n"@ + bullet_lines(report.docs.deep_view()) + (if report.commands.len() > 0 {
        "\nCommands:\n\n"@ + bullet_lines(take_seq(sorted_strings(report.commands.deep_view()), 20))
    } else {
        seq![]
    }) + if report.subprojects.len() >= 2 {
        "\nSubprojects:\n\n"@ + subproject_table(report.subprojects@, file) + seq!['\n', '\n']
    } else {
        seq![]
    }
}

/// The generated block of `PROJECT_STATE.md`: commit, version, package
/// managers, complexity, test census, important paths, up to 20 commands in
/// sorted order and, with two or more subprojects, the subproject table.
/// `unit_tests`/`integration_tests` are the `#[test` line counts under
/// `src/` and `tests/`.
pub open spec fn generated_text(report: ScanReport, unit_tests: nat, integration_tests: nat, file: Option<&SubprojectsFile>) -> Seq<char> {
    generated_head(report) + package_lines(report.packages@) + generated_counts(report, unit_tests, integration_tests)
        + generated_tail(report, file)
}

pub open spec fn take_seq(s: Seq<Seq<char>>, n: nat) -> Seq<Seq<char>> {
    if s.len() <= n {
        s
    } else {
        s.subrange(0, n as int)
    }
}

fn push_bullets(out: &mut String, items: &Vec<String>, limit: usize)
    ensures
        final(out)@ == old(out)@ + bullet_lines(take_seq(items.deep_view(), limit as nat)),
{
    let n = if items.len() < limit { items.len() } else { limit };
    let ghost all = items.deep_view();
    let mut i: usize = 0;
    assert(all.subrange(0, 0) =~= Seq::<Seq<char>>::empty());
    while i < n
        invariant
            i <= n <= items.len(),
            n == if items.len() < limit { items.len() } else { limit },
            all == items.deep_view(),
            out@ == old(out)@ + bullet_lines(all.subrange(0, i as int)),
        decreases n - i,
    {
        proof {
            assert(all.subrange(0, i + 1).drop_last() =~= all.subrange(0, i as int));
        }
        push_str(out, "- ");
        push_str(out, items[i].as_str());
        push_char(out, '\n');
        i += 1;
    }
    assert(take_seq(all, limit as nat) =~= all.subrange(0, n as int));
}

fn push_generated_head(s: &mut String, report: &ScanReport)
    ensures
        final(s)@ == old(s)@ + generated_head(*report),
{
    push_str(s, "Last synchronized commit: ");
    match &report.git.short_head {
        Some(h) => push_str(s, h.as_str()),
        None => push_str(s, "unknown"),
    }
    push_char(s, '\n');
    if report.version_candidates.len() > 0 {
        push_str(s, "Version: ");
        push_str(s, report.version_candidates[0].version.as_str());
        push_str(s, " (");
        push_str(s, report.version_candidates[0].source.as_str());
        push_str(s, ")\n");
    }
    let ghost mid = s@;
    assert(mid == old(s)@ + "Last synchronized commit: "@ + (match report.git.short_head { Some(h) => h@, None => "unknown"@ }) + seq!['\n']
        + (if report.version_candidates.len() > 0 {
        "Version: "@ + report.version_candidates@[0].version@ + " ("@ + report.version_candidates@[0].source@ + ")\n"@
    } else {
        seq![]
    }));
    push_origin_line(s, &report.engineering);
    assert(s@ =~= mid + origin_line(report.engineering));
}

fn push_origin_line(s: &mut String, e: &Option<crate::scan::EngineeringSummary>)
    ensures
        final(s)@ == old(s)@ + origin_line(*e),
{
    if let Some(x) = e {
        push_str(s, "Origin: ");
        push_str(s, x.origin.as_str());
        if let Some(r) = &x.recipe {
            push_str(s, " (recipe ");
            push_str(s, r.as_str());
            push_str(s, ")");
        }
        push_char(s, '\n');
    } else {
        assert(s@ =~= old(s)@ + origin_line(*e));
    }
}

fn push_package_lines(s: &mut String, packages: &Vec<PackageInfo>)
    ensures
        final(s)@ == old(s)@ + package_lines(packages@),
{
    let mut i: usize = 0;
    assert(packages@.subrange(0, 0) =~= Seq::<PackageInfo>::empty());
    while i < packages.len()
        invariant
            i <= packages.len(),
            s@ == old(s)@ + package_lines(packages@.subrange(0, i as int)),
        decreases packages.len() - i,
    {
        let p = &packages[i];
        proof {
            assert(packages@.subrange(0, i + 1).drop_last() =~= packages@.subrange(0, i as int));
        }
        push_str(s, "Package manager: ");
        push_str(s, p.manager.as_str());
        push_str(s, " (");
        push_str(s, p.manifest.as_str());
        push_str(s, ")\n");
        if p.workspaces.len() > 0 {
            push_str(s, "Workspaces: ");
            push_decimal(s, p.workspaces.len() as u64);
            push_char(s, '\n');
        }
        i += 1;
    }
    assert(packages@.subrange(0, packages.len() as int) =~= packages@);
}

#[verifier::rlimit(30)]
fn push_generated_counts(s: &mut String, report: &ScanReport, unit_tests: usize, integration_tests: usize)
    requires
        unit_tests + integration_tests <= u64::MAX,
    ensures
        final(s)@ == old(s)@ + generated_counts(*report, unit_tests as nat, integration_tests as nat),
{
    push_str(s, "Complexity: ");
    push_str(s, report.complexity.profile.as_str());
    push_char(s, '\n');
    push_str(s, "Source files: ");
    push_decimal(s, report.complexity.source_files as u64);
    push_str(s, " | LOC: ~");
    push_decimal(s, report.complexity.loc);
    push_char(s, '\n');
    push_str(s, "Test functions: ");
    push_decimal(s, unit_tests as u64 + integration_tests as u64);
    push_str(s, " (src: ");
    push_decimal(s, unit_tests as u64);
    push_str(s, ", tests: ");
    push_decimal(s, integration_tests as u64);
    push_str(s, ")\n");
}

fn push_generated_tail(s: &mut String, report: &ScanReport, file: Option<&SubprojectsFile>)
    ensures
        final(s)@ == old(s)@ + generated_tail(*report, file),
{
    push_str(s, "\nImportant paths:\n\n");
    push_bullets(s, &report.docs, report.docs.len());
    assert(take_seq(report.docs.deep_view(), report.docs.len() as nat) =~= report.docs.deep_view());
    if report.commands.len() > 0 {
        push_str(s, "\nCommands:\n\n");
        let cmds = sort_strings(clone_strings(&report.commands));
        push_bullets(s, &cmds, 20);
    }
    if report.subprojects.len() >= ROUTING_MIN_SUBPROJECTS {
        push_str(s, "\nSubprojects:\n\n");
        push_str(s, render_subproject_rows(&report.subprojects, file).as_str());
        push_char(s, '\n');
        push_char(s, '\n');
    }
}

/// Renders the generated block (see [`generated_text`]).
pub fn generated_block(report: &ScanReport, unit_tests: usize, integration_tests: usize, file: Option<&SubprojectsFile>) -> (r: String)
    requires
        unit_tests + integration_tests <= u64::MAX,
    ensures
        r@ == generated_text(*report, unit_tests as nat, integration_tests as nat, file),
{
    let mut s = String::new();
    push_generated_head(&mut s, report);
    push_package_lines(&mut s, &report.packages);
    push_generated_counts(&mut s, report, unit_tests, integration_tests);
    push_generated_tail(&mut s, report, file);
    s
}

/// A marker literal: opens with `<`, which recurs nowhere in it, and holds
/// no line break.
pub open spec fn marker_lit(m: Seq<char>) -> bool {
    &&& head_unique(m)
    &&& m[0] == '<'
    &&& forall|i: int| 0 <= i < m.len() ==> m[i] != '\n'
}

proof fn lemma_marker_lit_ok(m: Seq<char>)
    requires
        marker_lit(m),
    ensures
        marker_ok(m),
{
    lemma_head_unique_no_overlap(m);
}

/// The facts about the marker literals that the placement laws use.
pub proof fn lemma_marker_literals()
    ensures
        marker_lit(GEN_START@),
        marker_lit(GEN_END@),
        marker_lit(CUR_START@),
        marker_lit(CUR_END@),
        marker_lit(ROUTING_START@),
        marker_lit(ROUTING_END@),
        marker_lit(CONTEXT_START@),
        marker_lit(CONTEXT_END@),
        GEN_START@.len() == 34,
        GEN_END@.len() == 32,
        CUR_START@.len() == 32,
        CUR_END@.len() == 30,
        GEN_START@[25] != GEN_END@[25],
        GEN_START@[15] != CUR_START@[15],
        GEN_START@[15] != CUR_END@[15],
        GEN_END@[15] != CUR_START@[15],
        GEN_END@[15] != CUR_END@[15],
        CUR_START@[23] != CUR_END@[23],
        STATE_TITLE@.len() == 17,
        forall|i: int| 0 <= i < STATE_TITLE@.len() ==> STATE_TITLE@[i] != '<',
{
    reveal_strlit("<!-- aicontext:generated:start -->");
    reveal_strlit("<!-- aicontext:generated:end -->");
    reveal_strlit("<!-- aicontext:curated:start -->");
    reveal_strlit("<!-- aicontext:curated:end -->");
    reveal_strlit("<!-- aicontext:routing:start -->");
    reveal_strlit("<!-- aicontext:routing:end -->");
    reveal_strlit("<!-- aicontext:context:start -->");
    reveal_strlit("<!-- aicontext:context:end -->");
    reveal_strlit("# Project State\n\n");
}

/// Extra line breaks after a text without marker `m` (a marker literal)
/// leave it without `m`.
proof fn lemma_no_marker_nl(a: Seq<char>, n: Seq<char>, m: Seq<char>)
    requires
        marker_lit(m),
        !occurs_in(a, m),
        forall|i: int| 0 <= i < n.len() ==> n[i] == '\n',
    ensures
        !occurs_in(a + n, m),
{
    lemma_marker_lit_ok(m);
    lemma_no_marker_with_newlines(a, n, m);
}

/// A marker literal `x` followed by a line break, then text without the
/// marker literal `m`: the joint text lacks `m` as long as `x` does.
proof fn lemma_marker_then_text(pre: Seq<char>, x: Seq<char>, t: Seq<char>, m: Seq<char>)
    requires
        marker_lit(x),
        marker_lit(m),
        x.len() >= m.len(),
        !occurs_in(pre, m),
        !occurs_in(x, m),
        !occurs_in(t, m),
    ensures
        !occurs_in(pre + x + seq!['\n'] + t, m),
{
    lemma_no_occ_concat_head(pre, x, m);
    lemma_no_marker_nl(pre + x, seq!['\n'], m);
    let a = pre + x + seq!['\n'];
    assert forall|i: int| a.len() - m.len() < i < a.len() implies a[i] != m[0] by {
        if i < a.len() - 1 {
            assert(a[i] == x[i - pre.len()]);
            assert(i - pre.len() > 0);
        }
    }
    lemma_no_occ_concat(a, t, m);
}

/// The generated block of a rendered `PROJECT_STATE.md` reads back as
/// written (after the line break that follows its start marker), so its
/// freshness key is that of the block itself: a `sync` that just wrote the
/// state finds no drift on the next run. Holds when the block does not
/// itself contain the generated end marker.
pub proof fn lemma_generated_roundtrip(g: Seq<char>, c: Seq<char>)
    requires
        !occurs_in(g, GEN_END@),
    ensures
        between(project_state_text(g, c), GEN_START@, GEN_END@) == Some(seq!['\n'] + g),
        freshness(seq!['\n'] + g) == freshness(g),
{
    lemma_marker_literals();
    let t = STATE_TITLE@;
    let gs = GEN_START@;
    let ge = GEN_END@;
    let x = project_state_text(g, c);
    let post1 = seq!['\n'] + g + ge + seq!['\n', '\n'] + CUR_START@ + seq!['\n'] + c + CUR_END@ + seq!['\n'];
    assert(x =~= t + gs + post1);
    lemma_no_occ_without_head(t, gs);
    lemma_head_unique_no_overlap(gs);
    lemma_find_after(t, gs, post1);
    // The end marker: first right after the block body.
    lemma_no_occ_without_head(t, ge);
    lemma_distinct_markers(gs, ge, 25);
    lemma_marker_then_text(t, gs, g, ge);
    let pre2 = t + gs + seq!['\n'] + g;
    let post2 = seq!['\n', '\n'] + CUR_START@ + seq!['\n'] + c + CUR_END@ + seq!['\n'];
    assert(x =~= pre2 + ge + post2);
    lemma_head_unique_no_overlap(ge);
    lemma_find_after(pre2, ge, post2);
    assert(x.subrange((t.len() + gs.len()) as int, pre2.len() as int) =~= seq!['\n'] + g);
    assert((seq!['\n'] + g).drop_first() =~= g);
    assert(trim_start(seq!['\n'] + g) == trim_start(g));
}

/// The curated block of a rendered `PROJECT_STATE.md` reads back as the
/// curated text, trimmed, with one final newline; reading it back from a
/// state rendered with that result gives it again, so `init`/`sync`
/// preserve curated content across runs. Holds when the generated block
/// holds neither curated marker and the curated text holds no end marker.
pub proof fn lemma_curated_roundtrip(g: Seq<char>, c: Seq<char>, g2: Seq<char>)
    requires
        !occurs_in(g, CUR_START@),
        !occurs_in(g, CUR_END@),
        !occurs_in(c, CUR_END@),
        !occurs_in(g2, CUR_START@),
        !occurs_in(g2, CUR_END@),
    ensures
        curated_of(project_state_text(g, c)) == Some(trim(c) + seq!['\n']),
        curated_of(project_state_text(g2, trim(c) + seq!['\n'])) == Some(trim(c) + seq!['\n']),
{
    lemma_marker_literals();
    lemma_curated_once(g, c);
    lemma_trim_sub(c);
    lemma_no_occ_sub(c, trim_start_len(c), trim_start_len(c) + trim(c).len(), CUR_END@);
    lemma_no_marker_nl(trim(c), seq!['\n'], CUR_END@);
    lemma_curated_once(g2, trim(c) + seq!['\n']);
    lemma_trim_newline(trim(c));
}

proof fn lemma_curated_once(g: Seq<char>, c: Seq<char>)
    requires
        !occurs_in(g, CUR_START@),
        !occurs_in(g, CUR_END@),
        !occurs_in(c, CUR_END@),
    ensures
        curated_of(project_state_text(g, c)) == Some(trim(c) + seq!['\n']),
{
    lemma_marker_literals();
    let t = STATE_TITLE@;
    let gs = GEN_START@;
    let ge = GEN_END@;
    let cs = CUR_START@;
    let ce = CUR_END@;
    let x = project_state_text(g, c);
    // Start marker.
    lemma_no_occ_without_head(t, cs);
    lemma_distinct_markers(gs, cs, 15);
    lemma_marker_then_text(t, gs, g, cs);
    lemma_distinct_markers(ge, cs, 15);
    lemma_no_occ_concat_head(t + gs + seq!['\n'] + g, ge, cs);
    lemma_no_marker_nl(t + gs + seq!['\n'] + g + ge, seq!['\n', '\n'], cs);
    let pre3 = t + gs + seq!['\n'] + g + ge + seq!['\n', '\n'];
    let post3 = seq!['\n'] + c + ce + seq!['\n'];
    assert(x =~= pre3 + cs + post3);
    lemma_head_unique_no_overlap(cs);
    lemma_find_after(pre3, cs, post3);
    // End marker.
    lemma_no_occ_without_head(t, ce);
    lemma_distinct_markers(gs, ce, 15);
    lemma_marker_then_text(t, gs, g, ce);
    lemma_distinct_markers(ge, ce, 15);
    lemma_no_occ_concat_head(t + gs + seq!['\n'] + g, ge, ce);
    lemma_no_marker_nl(t + gs + seq!['\n'] + g + ge, seq!['\n', '\n'], ce);
    lemma_distinct_markers(cs, ce, 23);
    lemma_marker_then_text(pre3, cs, c, ce);
    let pre4 = pre3 + cs + seq!['\n'] + c;
    let post4 = seq!['\n'];
    assert(x =~= pre4 + ce + post4);
    lemma_head_unique_no_overlap(ce);
    lemma_find_after(pre4, ce, post4);
    assert(x.subrange((pre3.len() + cs.len()) as int, pre4.len() as int) =~= seq!['\n'] + c);
    assert((seq!['\n'] + c).drop_first() =~= c);
    assert(trim_start(seq!['\n'] + c) == trim_start(c));
}

// ---------------------------------------------------------------------------
// init / sync / status
// ---------------------------------------------------------------------------

pub const PATTERNS_PLACEHOLDER: &'static str = "# Patterns\n\n> Semantic adoption (`aicontext-adopt` skill) fills this file.\n> Status values: preferred | observed | legacy | exception | protected.\n";

pub open spec fn has_line(ls: Seq<Seq<char>>, e: Seq<char>) -> bool {
    exists|i: int| 0 <= i < ls.len() && trim(#[trigger] ls[i]) == e
}

/// The lines of `.gitignore` after `init`: its lines, then each missing
/// entry (`.aicontext/`, then `.tgrep/`).
pub open spec fn ignore_lines(existing: Seq<Seq<char>>) -> Seq<Seq<char>> {
    let a = if has_line(existing, ".aicontext/"@) { existing } else { existing.push(".aicontext/"@) };
    if has_line(a, ".tgrep/"@) { a } else { a.push(".tgrep/"@) }
}

fn has_line_exec(ls: &Vec<String>, e: &str) -> (r: bool)
    ensures
        r == has_line(ls.deep_view(), e@),
{
    let ghost dv = ls.deep_view();
    let mut i: usize = 0;
    while i < ls.len()
        invariant
            i <= ls.len(),
            dv == ls.deep_view(),
            forall|k: int| 0 <= k < i ==> trim(#[trigger] dv[k]) != e@,
        decreases ls.len() - i,
    {
        if same_str(crate::text::trim_string(ls[i].as_str()).as_str(), e) {
            assert(trim(dv[i as int]) == e@);
            return true;
        }
        i += 1;
    }
    false
}

/// The new `.gitignore` text when an entry is missing (lines joined by
/// `\n`, with a final newline); `None` when nothing changes. `existing` is
/// the current file, if there is one.
pub fn gitignore_update(existing: Option<&str>) -> (r: Option<String>)
    ensures
        ({
            let ls = match existing { Some(t) => lines(t@), None => seq![] };
            let new_ls = ignore_lines(ls);
            match r {
                Some(t) => new_ls != ls && t@ == join(new_ls, "\n"@) + "\n"@,
                None => new_ls == ls,
            }
        }),
{
    let mut ls: Vec<String> = Vec::new();
    match existing {
        Some(t) => {
            let v = lines_exec(&chars_of(t));
            let mut i: usize = 0;
            while i < v.len()
                invariant
                    i <= v.len(),
                    ls.deep_view() == v@.take(i as int).map_values(|l: Vec<char>| l@),
                decreases v.len() - i,
            {
                let ghost before = ls.deep_view();
                ls.push(string_of(&v[i]));
                assert(ls.deep_view() =~= before.push(v@[i as int]@));
                assert(v@.take(i + 1).map_values(|l: Vec<char>| l@) =~= v@.take(i as int).map_values(|l: Vec<char>| l@).push(v@[i as int]@));
                i += 1;
            }
            assert(v@.take(i as int) =~= v@);
        },
        None => {},
    }
    let ghost start = ls.deep_view();
    assert(start == match existing { Some(t) => lines(t@), None => seq![] });
    let mut changed = false;
    if !has_line_exec(&ls, ".aicontext/") {
        ls.push(string_from(".aicontext/"));
        assert(ls.deep_view() =~= start.push(".aicontext/"@));
        changed = true;
    }
    let ghost mid = ls.deep_view();
    assert(mid == (if has_line(start, ".aicontext/"@) { start } else { start.push(".aicontext/"@) }));
    if !has_line_exec(&ls, ".tgrep/") {
        ls.push(string_from(".tgrep/"));
        assert(ls.deep_view() =~= mid.push(".tgrep/"@));
        changed = true;
    }
    assert(ls.deep_view() =~= ignore_lines(start));
    if changed {
        assert(ls.deep_view().len() > start.len());
        let mut text = join_strs(&ls, "\n");
        push_str(&mut text, "\n");
        Some(text)
    } else {
        None
    }
}

pub open spec fn test_line(l: Seq<char>) -> bool {
    starts_with(trim_start(l), "#[test"@)
}

pub open spec fn test_lines_spec(ls: Seq<Seq<char>>) -> nat
    decreases ls.len(),
{
    if ls.len() == 0 { 0 } else { test_lines_spec(ls.drop_last()) + if test_line(ls.last()) { 1nat } else { 0nat } }
}

/// Lines whose content starts (after indentation) with `#[test`.
pub fn test_lines(text: &str) -> (r: usize)
    ensures
        r == test_lines_spec(lines(text@)),
{
    let ls = lines_exec(&chars_of(text));
    let ghost lv = ls@.map_values(|l: Vec<char>| l@);
    let mut n: usize = 0;
    let mut i: usize = 0;
    while i < ls.len()
        invariant
            i <= ls.len(),
            lv == ls@.map_values(|l: Vec<char>| l@),
            n == test_lines_spec(lv.take(i as int)),
            n <= i,
        decreases ls.len() - i,
    {
        assert(lv.take(i + 1).drop_last() =~= lv.take(i as int));
        assert(lv.take(i + 1).last() == ls@[i as int]@);
        let line = string_of(&ls[i]);
        let v = chars_of(line.as_str());
        let (a, _b) = crate::text::trim_bounds(&v);
        let lead = crate::text::string_of_range(&v, a, v.len());
        if crate::text::starts_with_str(lead.as_str(), "#[test") {
            n = n + 1;
        }
        i += 1;
    }
    assert(lv.take(i as int) =~= lv);
    n
}

/// Where a Rust file's tests count: 1 unit (`src/`), 2 integration
/// (`tests/`), 0 not at all (elsewhere, or under `.git/`, `target/` or
/// `.engineering/`).
pub open spec fn test_file_kind(rel: Seq<char>) -> nat {
    if contains(rel, ".git/"@) || contains(rel, "target/"@) || contains(rel, ".engineering/"@) {
        0
    } else if starts_with(rel, "src/"@) {
        1
    } else if starts_with(rel, "tests/"@) {
        2
    } else {
        0
    }
}

pub fn test_file_kind_exec(rel: &str) -> (r: u8)
    ensures
        r as nat == test_file_kind(rel@),
{
    if crate::text::contains_str(rel, ".git/") || crate::text::contains_str(rel, "target/") || crate::text::contains_str(rel, ".engineering/") {
        0
    } else if crate::text::starts_with_str(rel, "src/") {
        1
    } else if crate::text::starts_with_str(rel, "tests/") {
        2
    } else {
        0
    }
}

pub open spec fn tests_of(files: Seq<Seq<char>>, texts: Seq<Option<Seq<char>>>, kind: nat, n: int) -> nat
    decreases n,
{
    if n <= 0 {
        0
    } else {
        tests_of(files, texts, kind, n - 1) + match texts[n - 1] {
            Some(t) => if test_file_kind(files[n - 1]) == kind { test_lines_spec(lines(t)) } else { 0 },
            None => 0,
        }
    }
}

pub open spec fn opt_texts(t: Seq<Option<String>>) -> Seq<Option<Seq<char>>> {
    t.map_values(|o: Option<String>| match o { Some(s) => Some(s@), None => None })
}

/// Test-function census for the generated block: `#[test` lines of the
/// Rust files Git lists, unit (`src/`) and integration (`tests/`);
/// `texts[i]` is the i-th file's text (`None` when unreadable or over
/// 1 MB). Totals saturate at `usize::MAX`.
pub fn count_test_functions(files: &Vec<String>, texts: &Vec<Option<String>>) -> (r: (usize, usize))
    requires
        texts.len() == files.len(),
    ensures
        r.0 as nat == vstd::math::min(tests_of(files.deep_view(), opt_texts(texts@), 1, files.len() as int) as int, usize::MAX as int),
        r.1 as nat == vstd::math::min(tests_of(files.deep_view(), opt_texts(texts@), 2, files.len() as int) as int, usize::MAX as int),
{
    let ghost fv = files.deep_view();
    let ghost tv = opt_texts(texts@);
    let mut unit: usize = 0;
    let mut integration: usize = 0;
    let mut i: usize = 0;
    while i < files.len()
        invariant
            i <= files.len(),
            texts.len() == files.len(),
            fv == files.deep_view(),
            tv == opt_texts(texts@),
            unit as nat == vstd::math::min(tests_of(fv, tv, 1, i as int) as int, usize::MAX as int),
            integration as nat == vstd::math::min(tests_of(fv, tv, 2, i as int) as int, usize::MAX as int),
        decreases files.len() - i,
    {
        match &texts[i] {
            Some(t) => {
                let kind = test_file_kind_exec(files[i].as_str());
                let n = test_lines(t.as_str());
                if kind == 1 {
                    unit = unit.saturating_add(n);
                } else if kind == 2 {
                    integration = integration.saturating_add(n);
                }
            },
            None => {},
        }
        i += 1;
    }
    (unit, integration)
}

/// `init` seeds the manifest with the requested profile, `auto` by default.
pub fn init_profile(profile: Option<String>) -> (r: String)
    ensures
        r@ == match profile { Some(p) => p@, None => "auto"@ },
{
    match profile {
        Some(p) => p,
        None => string_from("auto"),
    }
}

/// The `PROJECT_STATE.md` that `init` writes: the fresh generated block,
/// keeping the curated block of the current file when there is one.
pub fn init_state_text(existing: Option<&str>, generated: &str) -> (r: String)
    ensures
        r@ == project_state_text(generated@, curated_or_default(match existing {
            Some(x) => curated_of(x@),
            None => None,
        })),
{
    let curated = match existing {
        Some(x) => extract_curated(x),
        None => None,
    };
    render_project_state(generated, match &curated {
        Some(c) => Some(c.as_str()),
        None => None,
    })
}

/// The generated block has drifted from a fresh scan when their freshness
/// keys differ (a missing block counts as empty).
pub open spec fn drift_spec(existing: Seq<char>, fresh: Seq<char>) -> bool {
    freshness(match between(existing, GEN_START@, GEN_END@) { Some(g) => g, None => seq![] }) != freshness(fresh)
}

pub fn state_drift(existing: &str, fresh: &str) -> (r: bool)
    ensures
        r == drift_spec(existing@, fresh@),
{
    let current = match extract_generated(existing) {
        Some(g) => g,
        None => String::new(),
    };
    !same_str(freshness_key(current.as_str()).as_str(), freshness_key(fresh).as_str())
}

/// What `sync` writes: with drift, the state file re-rendered around the
/// fresh block (curated block kept); nothing otherwise, nor ever with
/// `--check`.
pub fn sync_write(existing: &str, fresh: &str, check_only: bool) -> (r: Option<String>)
    ensures
        (check_only || !drift_spec(existing@, fresh@)) <==> r is None,
        r matches Some(t) ==> t@ == project_state_text(fresh@, curated_or_default(curated_of(existing@))),
{
    if check_only || !state_drift(existing, fresh) {
        return None;
    }
    let curated = extract_curated(existing);
    Some(render_project_state(fresh, match &curated {
        Some(c) => Some(c.as_str()),
        None => None,
    }))
}

/// `sync --check` exits 1 on drift; `sync` itself exits 0.
pub fn sync_exit_code(check_only: bool, drift: bool) -> (r: i32)
    ensures
        r == if check_only && drift { 1i32 } else { 0i32 },
{
    if check_only && drift { 1 } else { 0 }
}

/// The state `status` reports: `uninitialized` without a loadable
/// manifest; `stale` when the state file is unreadable, has no generated
/// block or has drifted; else `synchronized`.
pub fn state_label(initialized: bool, existing: Option<&str>, fresh: &str) -> (r: &'static str)
    ensures
        r@ == if !initialized {
            "uninitialized"@
        } else {
            match existing {
                Some(x) => match between(x@, GEN_START@, GEN_END@) {
                    Some(g) => if freshness(g) != freshness(fresh@) { "stale"@ } else { "synchronized"@ },
                    None => "stale"@,
                },
                None => "stale"@,
            }
        },
{
    if !initialized {
        return "uninitialized";
    }
    match existing {
        Some(x) => match extract_generated(x) {
            Some(g) => {
                if !same_str(freshness_key(g.as_str()).as_str(), freshness_key(fresh).as_str()) {
                    "stale"
                } else {
                    "synchronized"
                }
            },
            None => "stale",
        },
        None => "stale",
    }
}

/// `sync --check` never writes `AGENTS.md`, whatever it holds.
pub proof fn lemma_report_never_writes(existing: Option<Seq<char>>, n_subprojects: nat, routing: Seq<char>)
    ensures
        routing_update(existing, n_subprojects, routing, RoutingMode::Report).0 is None,
{
}

/// `sync` never creates `AGENTS.md`: without the file nothing is written.
pub proof fn lemma_sync_never_creates(n_subprojects: nat, routing: Seq<char>)
    ensures
        routing_update(None, n_subprojects, routing, RoutingMode::Sync).0 is None,
        routing_update(None, n_subprojects, routing, RoutingMode::Report).0 is None,
{
}

/// With fewer than two subprojects the router never writes `AGENTS.md`.
pub proof fn lemma_no_router_below_two(existing: Option<Seq<char>>, n_subprojects: nat, routing: Seq<char>, mode: RoutingMode)
    requires
        n_subprojects < 2,
    ensures
        routing_update(existing, n_subprojects, routing, mode).0 is None,
{
}


/// The end marker occurs nowhere in the start marker followed by a body
/// that lacks it: the start marker's `<` opens nothing else, and the two
/// markers differ at `k`.
proof fn lemma_end_not_in_opening(start: Seq<char>, body: Seq<char>, end: Seq<char>, k: int)
    requires
        marker_lit(start),
        marker_lit(end),
        0 <= k < end.len() <= start.len(),
        start[k] != end[k],
        !occurs_in(body, end),
    ensures
        !occurs_in(start + body, end),
{
    let t = start + body;
    if occurs_in(t, end) {
        let j = choose|j: int| occurs_at(t, end, j);
        let el = end.len() as int;
        assert(t.subrange(j, j + el)[0] == t[j]);
        assert(end[0] == '<');
        if j == 0 {
            assert(t.subrange(0, el)[k] == t[k]);
            assert(t[k] == start[k]);
        } else if j < start.len() {
            assert(t[j] == start[j]);
        } else {
            assert(body.subrange(j - start.len(), j - start.len() + el) =~= t.subrange(j, j + el));
            assert(occurs_at(body, end, j - start.len()));
        }
    }
}

/// A block rendered as its start marker, a body without the end marker, and
/// its end marker is a well-formed block.
proof fn lemma_rendered_block_ok(start: Seq<char>, body: Seq<char>, end: Seq<char>, k: int)
    requires
        marker_lit(start),
        marker_lit(end),
        0 <= k < end.len() <= start.len(),
        start[k] != end[k],
        !occurs_in(body, end),
    ensures
        marker_ok(start),
        block_ok(start + body + end, start, end),
{
    lemma_marker_lit_ok(start);
    lemma_marker_lit_ok(end);
    let r = start + body + end;
    assert(r.subrange(0, start.len() as int) =~= start);
    lemma_end_not_in_opening(start, body, end, k);
    lemma_find_after(start + body, end, seq![]);
    assert(start + body + end + seq![] =~= r);
}

/// Upserting the routing block or the context pointer a second time changes
/// nothing: a block rendered as its literal start marker, a body holding
/// neither marker, and its literal end marker, placed into a file that has
/// no start marker or holds a whole block, stays byte-identical on the next
/// upsert, which replaces it in place.
pub proof fn lemma_marked_block_upsert_idempotent(x: Seq<char>, body: Seq<char>, routing: bool)
    requires
        !occurs_in(body, if routing { ROUTING_START@ } else { CONTEXT_START@ }),
        !occurs_in(body, if routing { ROUTING_END@ } else { CONTEXT_END@ }),
        !occurs_in(x, if routing { ROUTING_START@ } else { CONTEXT_START@ })
            || block_range(x, if routing { ROUTING_START@ } else { CONTEXT_START@ }, if routing { ROUTING_END@ } else { CONTEXT_END@ }) is Some,
    ensures
        ({
            let start = if routing { ROUTING_START@ } else { CONTEXT_START@ };
            let end = if routing { ROUTING_END@ } else { CONTEXT_END@ };
            let r = start + body + end;
            let once = upsert_spec(x, r, start, end, start == CONTEXT_START@);
            upsert_spec(once.0, r, start, end, start == CONTEXT_START@) == (once.0, Placement::InPlace)
        }),
{
    lemma_agents_markers();
    let start = if routing { ROUTING_START@ } else { CONTEXT_START@ };
    let end = if routing { ROUTING_END@ } else { CONTEXT_END@ };
    lemma_rendered_block_ok(start, body, end, 23);
    if block_range(x, start, end) is None {
        lemma_find_from(x, start, 0);
        if let Some(j) = find(x, start) {
            assert(occurs_at(x, start, j));
        }
    }
    lemma_upsert_converges(x, start + body + end, start, end, start == CONTEXT_START@);
}

// ---------------------------------------------------------------------------
// AGENTS.md: repeated runs converge
// ---------------------------------------------------------------------------

/// The routing and context marker literals: lengths and where they differ.
proof fn lemma_agents_markers()
    ensures
        marker_lit(ROUTING_START@),
        marker_lit(ROUTING_END@),
        marker_lit(CONTEXT_START@),
        marker_lit(CONTEXT_END@),
        ROUTING_START@.len() == 32,
        ROUTING_END@.len() == 30,
        CONTEXT_START@.len() == 32,
        CONTEXT_END@.len() == 30,
        ROUTING_START@[15] != CONTEXT_START@[15],
        ROUTING_START@[15] != CONTEXT_END@[15],
        ROUTING_END@[15] != CONTEXT_START@[15],
        ROUTING_END@[15] != CONTEXT_END@[15],
        CONTEXT_START@[23] != CONTEXT_END@[23],
        ROUTING_START@[23] != ROUTING_END@[23],
{
    lemma_marker_literals();
    reveal_strlit("<!-- aicontext:routing:start -->");
    reveal_strlit("<!-- aicontext:routing:end -->");
    reveal_strlit("<!-- aicontext:context:start -->");
    reveal_strlit("<!-- aicontext:context:end -->");
}

/// No occurrence of `m` across the end of a marker `e` that differs from `m`
/// at index `d`: joining `a + e` and `b`, both without `m`, adds none.
proof fn lemma_no_occ_after_marker(a: Seq<char>, e: Seq<char>, b: Seq<char>, m: Seq<char>, d: int)
    requires
        head_unique(m),
        head_unique(e),
        e[0] == m[0],
        0 <= d < e.len(),
        d < m.len(),
        e[d] != m[d],
        !occurs_in(a + e, m),
        !occurs_in(b, m),
    ensures
        !occurs_in(a + e + b, m),
{
    let s = a + e + b;
    let ae = a + e;
    if occurs_in(s, m) {
        let j = choose|j: int| occurs_at(s, m, j);
        let l = m.len() as int;
        if j + l <= ae.len() {
            assert(ae.subrange(j, j + l) =~= s.subrange(j, j + l));
            assert(occurs_at(ae, m, j));
        } else if j >= ae.len() {
            assert(b.subrange(j - ae.len(), j - ae.len() + l) =~= s.subrange(j, j + l));
            assert(occurs_at(b, m, j - ae.len()));
        } else {
            crate::text::lemma_occurs_head(s, m, j);
            if j >= a.len() {
                let i = j - a.len();
                assert(s[j] == e[i]);
                if i > 0 {
                    assert(e[i] != e[0]);
                }
                assert(s.subrange(j, j + l)[d] == s[j + d]);
                assert(s[j + d] == e[d]);
            } else {
                let k = a.len() - j;
                assert(s.subrange(j, j + l)[k] == s[a.len() as int]);
                assert(s[a.len() as int] == e[0]);
                assert(m[k] != m[0]);
            }
        }
    }
}

/// The marked context pointer block: it opens with its start marker, its
/// first end marker is its tail, and it holds no routing marker.
#[verifier::rlimit(30)]
proof fn lemma_context_block_shape()
    ensures
        block_ok(context_block_text(), CONTEXT_START@, CONTEXT_END@),
        !occurs_in(context_block_text(), ROUTING_START@),
        context_block_text() == CONTEXT_START@ + seq!['\n'] + AGENTS_POINTER@ + CONTEXT_END@,
{
    lemma_agents_markers();
    crate::agent::lemma_pointer_shape();
    let cs = CONTEXT_START@;
    let ce = CONTEXT_END@;
    let rs = ROUTING_START@;
    let p = AGENTS_POINTER@;
    let ctx = context_block_text();
    let c0 = cs + seq!['\n'] + p;
    assert(ctx =~= c0 + ce + seq![]);
    assert(ctx.subrange(0, cs.len() as int) =~= cs);
    lemma_no_occ_without_head(p, ce);
    lemma_distinct_markers(cs, ce, 23);
    lemma_marker_then_text(seq![], cs, p, ce);
    assert(seq![] + cs + seq!['\n'] + p =~= c0);
    lemma_head_unique_no_overlap(ce);
    lemma_find_after(c0, ce, seq![]);
    lemma_no_occ_without_head(p, rs);
    lemma_distinct_markers(cs, rs, 15);
    lemma_marker_then_text(seq![], cs, p, rs);
    lemma_distinct_markers(ce, rs, 15);
    lemma_no_occ_concat_head(c0, ce, rs);
    assert(c0 + ce =~= ctx);
}


/// A line runs from `off` to just past its first line break, or to the end
/// of the text when there is none.
proof fn lemma_line_shape(t: Seq<char>, off: int)
    requires
        0 <= off < t.len(),
    ensures
        off < line_end(t, off) <= t.len(),
        forall|j: int| off <= j < line_end(t, off) - 1 ==> t[j] != '\n',
        t[line_end(t, off) - 1] == '\n' || line_end(t, off) == t.len(),
{
    lemma_find_from(t, seq!['\n'], off);
    let e = line_end(t, off);
    assert forall|j: int| off <= j < e - 1 implies t[j] != '\n' by {
        if t[j] == '\n' {
            assert(t.subrange(j, j + 1) =~= seq!['\n']);
            assert(occurs_at(t, seq!['\n'], j));
        }
    }
    if let Some(k) = find_from(t, seq!['\n'], off) {
        assert(t.subrange(k, k + 1)[0] == t[k]);
    }
}

/// The line that `h1_end_from` settles on: it starts at `o` (`off`, or
/// right after a line break), ends at the offset returned, and is a heading.
proof fn lemma_h1_end_line(t: Seq<char>, off: int) -> (o: int)
    requires
        0 <= off,
    ensures
        h1_end_from(t, off) matches Some(e) ==> off <= o < e <= t.len() && (o == off || t[o - 1] == '\n')
            && e == line_end(t, o) && is_h1(t.subrange(o, e)),
    decreases t.len() - off,
{
    if off >= t.len() {
        off
    } else {
        lemma_line_shape(t, off);
        let e = line_end(t, off);
        if is_h1(t.subrange(off, e)) {
            off
        } else {
            let o = lemma_h1_end_line(t, e);
            if h1_end_from(t, e) is Some {
                if o == e {
                    assert(e < t.len());
                }
            }
            o
        }
    }
}

/// Trailing whitespace trimming keeps every character up to a
/// non-whitespace one.
proof fn lemma_trim_end_keeps(s: Seq<char>, k: int)
    requires
        0 <= k < s.len(),
        !crate::text::is_ws(s[k]),
    ensures
        crate::text::trim_end(s).len() > k,
        crate::text::trim_end(s)[k] == s[k],
    decreases s.len(),
{
    if crate::text::is_ws(s.last()) {
        assert(k < s.len() - 1);
        assert(s.drop_last()[k] == s[k]);
        lemma_trim_end_keeps(s.drop_last(), k);
    }
}

/// A line whose first character is a line break, a character that is
/// neither whitespace nor `#`, or the first of `##` is no level-1 heading.
proof fn lemma_plain_line_not_h1(line: Seq<char>)
    requires
        line.len() > 0,
        (line[0] == '\n' && line.len() == 1) || (!crate::text::is_ws(line[0]) && line[0] != '#') || (
        line.len() > 1 && line[0] == '#' && line[1] == '#'),
    ensures
        !is_h1(line),
{
    if line[0] == '\n' && line.len() == 1 {
        assert(crate::text::is_ws('\n'));
        assert(line.drop_first() =~= Seq::<char>::empty());
        assert(trim_start(line) == trim_start(line.drop_first()));
        assert(trim_start(Seq::<char>::empty()) =~= Seq::<char>::empty());
        assert(crate::text::trim_end(Seq::<char>::empty()) =~= Seq::<char>::empty());
    } else {
        assert(!crate::text::is_ws(line[0]));
        assert(trim_start(line) == line);
        lemma_trim_end_keeps(line, 0);
        if line[0] == '#' {
            assert(!crate::text::is_ws(line[1]));
            lemma_trim_end_keeps(line, 1);
            assert(line.subrange(0, 2)[1] == line[1]);
        } else if line.len() >= 2 {
            assert(line.subrange(0, 2)[0] == line[0]);
        }
        assert(trim(line) != seq!['#']);
    }
}


/// Every line of `x` opens plainly: with a line break, with `##`, or with
/// a character that is neither whitespace nor `#`.
pub open spec fn plain_lines(x: Seq<char>) -> bool {
    forall|k: int| 0 <= k < x.len() && (k == 0 || x[k - 1] == '\n') ==> #[trigger] crate::agent::line_head_plain(x, k)
}

/// No level-1 heading line ends strictly inside a block whose lines all open
/// plainly, when the text before the block is empty or ends its last line.
#[verifier::rlimit(30)]
proof fn lemma_h1_outside_block(pre: Seq<char>, x: Seq<char>, post: Seq<char>)
    requires
        pre.len() == 0 || pre.last() == '\n',
        plain_lines(x),
    ensures
        h1_end(pre + x + post) matches Some(le) ==> le <= pre.len() || le >= pre.len() + x.len(),
{
    let t = pre + x + post;
    let o = lemma_h1_end_line(t, 0);
    if let Some(le) = h1_end(t) {
        let p = pre.len() as int;
        let c = x.len() as int;
        if p < le < p + c {
            lemma_line_shape(t, o);
            assert(t[le - 1] == '\n');
            if o < p {
                assert(t[p - 1] == pre.last());
                assert(o <= p - 1 < le - 1);
            }
            let a = o - p;
            let line = t.subrange(o, le);
            assert(t[o] == x[a]);
            assert(line[0] == t[o]);
            if a > 0 {
                assert(t[o - 1] == x[a - 1]);
            }
            assert(crate::agent::line_head_plain(x, a));
            if line[0] == '\n' {
                assert(o == le - 1);
            }
            if line[0] == '#' {
                assert(o < le - 1);
                assert(t[o + 1] == x[a + 1]);
                assert(line[1] == t[o + 1]);
            }
            lemma_plain_line_not_h1(line);
        }
    }
}

/// The lines of the context block all open plainly.
#[verifier::rlimit(30)]
proof fn lemma_context_plain_lines()
    ensures
        plain_lines(context_block_text()),
{
    lemma_agents_markers();
    crate::agent::lemma_pointer_shape();
    let ctx = context_block_text();
    let cs = CONTEXT_START@;
    let ce = CONTEXT_END@;
    let ptr = AGENTS_POINTER@;
    let pl = ptr.len() as int;
    assert(ctx.len() == 33 + pl + 30);
    assert(!crate::text::is_ws('<'));
    assert forall|k: int| 0 <= k < ctx.len() && (k == 0 || ctx[k - 1] == '\n') implies #[trigger] crate::agent::line_head_plain(
        ctx,
        k,
    ) by {
        if k == 0 {
            assert(ctx[0] == cs[0]);
        } else if k - 1 < 32 {
            assert(ctx[k - 1] == cs[k - 1]);
        } else if k - 1 == 32 {
            assert(ctx[k] == ptr[0]);
            assert(crate::agent::line_head_plain(ptr, 0));
            if 1 < pl {
                assert(ctx[k + 1] == ptr[1]);
            }
        } else if k - 1 < 33 + pl {
            assert(ctx[k - 1] == ptr[k - 34]);
            if k - 33 < pl {
                assert(ctx[k] == ptr[k - 33]);
                assert(crate::agent::line_head_plain(ptr, k - 33));
                if k - 33 + 1 < pl {
                    assert(ctx[k + 1] == ptr[k - 32]);
                }
            } else {
                assert(ctx[k] == ce[0]);
            }
        } else {
            assert(ctx[k - 1] == ce[k - 34 - pl]);
        }
    }
}

/// No level-1 heading line ends strictly inside the context block when the
/// text before the block is empty or ends its last line.
proof fn lemma_h1_outside_context(pre: Seq<char>, post: Seq<char>)
    requires
        pre.len() == 0 || pre.last() == '\n',
    ensures
        h1_end(pre + context_block_text() + post) matches Some(le) ==> le <= pre.len() || le >= pre.len()
            + context_block_text().len(),
{
    lemma_context_plain_lines();
    lemma_h1_outside_block(pre, context_block_text(), post);
}


/// A marked block (opening with `start`, closing with its first `end`)
/// between two texts, none of the three holding marker `m`, adds no `m`
/// when `end` differs from `m` at index `d`.
proof fn lemma_block_wrap(pre: Seq<char>, x: Seq<char>, post: Seq<char>, start: Seq<char>, end: Seq<char>, m: Seq<char>, d: int)
    requires
        marker_lit(start),
        marker_lit(end),
        marker_lit(m),
        block_ok(x, start, end),
        0 <= d < end.len(),
        d < m.len(),
        end[d] != m[d],
        !occurs_in(pre, m),
        !occurs_in(x, m),
        !occurs_in(post, m),
    ensures
        !occurs_in(pre + x + post, m),
{
    let l = x.len() as int;
    let el = end.len() as int;
    assert(x[0] == x.subrange(0, start.len() as int)[0]);
    lemma_no_occ_concat_head(pre, x, m);
    lemma_find_from(x, end, 0);
    let x0 = x.subrange(0, l - el);
    assert(x.subrange(l - el, l) == end);
    assert(x =~= x0 + end);
    assert(pre + x0 + end =~= pre + x);
    lemma_no_occ_after_marker(pre + x0, end, post, m, d);
    assert(pre + x0 + end + post =~= pre + x + post);
}

/// Text around the context block adds no routing start marker.
proof fn lemma_context_wrap(pre: Seq<char>, post: Seq<char>)
    requires
        !occurs_in(pre, ROUTING_START@),
        !occurs_in(post, ROUTING_START@),
    ensures
        !occurs_in(pre + context_block_text() + post, ROUTING_START@),
{
    lemma_agents_markers();
    lemma_context_block_shape();
    lemma_block_wrap(pre, context_block_text(), post, CONTEXT_START@, CONTEXT_END@, ROUTING_START@, 15);
}

/// Line breaks hold no marker.
proof fn lemma_newlines_no_marker(n: Seq<char>, m: Seq<char>)
    requires
        marker_lit(m),
        forall|i: int| 0 <= i < n.len() ==> n[i] == '\n',
    ensures
        !occurs_in(n, m),
{
    lemma_no_occ_without_head(n, m);
}

/// Inserting the context block into a text without its start marker gives
/// `pre + block + post`, where `pre` is empty or ends its last line, `pre`
/// lacks the context start marker and no routing start marker appears.
#[verifier::rlimit(30)]
proof fn lemma_context_insert(t: Seq<char>) -> (pq: (Seq<char>, Seq<char>))
    requires
        !occurs_in(t, CONTEXT_START@),
        !occurs_in(t, ROUTING_START@),
    ensures
        upsert_spec(t, context_block_text(), CONTEXT_START@, CONTEXT_END@, true).0 == pq.0 + context_block_text()
            + pq.1,
        pq.0.len() == 0 || pq.0.last() == '\n',
        !occurs_in(pq.0, CONTEXT_START@),
        !occurs_in(pq.0 + context_block_text() + pq.1, ROUTING_START@),
        upsert_spec(t, context_block_text(), CONTEXT_START@, CONTEXT_END@, true).0.len() > t.len(),
{
    lemma_agents_markers();
    lemma_context_block_shape();
    let cs = CONTEXT_START@;
    let rs = ROUTING_START@;
    let ctx = context_block_text();
    lemma_find_from(t, cs, 0);
    if let Some(k) = find(t, cs) {
        assert(occurs_at(t, cs, k));
    }
    assert(block_range(t, cs, CONTEXT_END@) is None);
    let out = upsert_spec(t, ctx, cs, CONTEXT_END@, true).0;
    let pre: Seq<char>;
    let post: Seq<char>;
    match h1_end(t) {
        Some(le) => {
            lemma_h1_end_from_bounds(t, 0);
            let after = t.subrange(le, t.len() as int);
            let sep = if after.len() == 0 || after[0] == '\n' { seq!['\n'] } else { seq!['\n', '\n'] };
            pre = t.subrange(0, le) + seq!['\n'];
            post = sep + after;
            lemma_no_occ_sub(t, 0, le, cs);
            lemma_no_marker_nl(t.subrange(0, le), seq!['\n'], cs);
            lemma_no_occ_sub(t, 0, le, rs);
            lemma_no_marker_nl(t.subrange(0, le), seq!['\n'], rs);
            lemma_no_occ_sub(t, le, t.len() as int, rs);
            lemma_newlines_no_marker(sep, rs);
            assert forall|i: int| 0 <= i < sep.len() implies sep[i] != rs[0] by {
                assert(sep[i] == '\n');
            }
            lemma_no_occ_concat(sep, after, rs);
            assert(out =~= pre + ctx + post);
        },
        None => {
            post = seq!['\n'];
            if t.len() == 0 {
                pre = seq![];
                lemma_newlines_no_marker(pre, cs);
                lemma_newlines_no_marker(pre, rs);
            } else if t.last() == '\n' {
                pre = t + seq!['\n'];
                lemma_no_marker_nl(t, seq!['\n'], cs);
                lemma_no_marker_nl(t, seq!['\n'], rs);
            } else {
                pre = t + seq!['\n', '\n'];
                lemma_no_marker_nl(t, seq!['\n', '\n'], cs);
                lemma_no_marker_nl(t, seq!['\n', '\n'], rs);
            }
            lemma_newlines_no_marker(post, rs);
            assert(out =~= pre + ctx + post);
        },
    }
    lemma_context_wrap(pre, post);
    (pre, post)
}


/// The routing block between two texts without the context start marker
/// adds none.
proof fn lemma_routing_between(x: Seq<char>, y: Seq<char>, routing: Seq<char>)
    requires
        !occurs_in(x, CONTEXT_START@),
        !occurs_in(y, CONTEXT_START@),
        block_ok(routing, ROUTING_START@, ROUTING_END@),
        !occurs_in(routing, CONTEXT_START@),
    ensures
        !occurs_in(x + routing + y, CONTEXT_START@),
{
    lemma_agents_markers();
    lemma_block_wrap(x, routing, y, ROUTING_START@, ROUTING_END@, CONTEXT_START@, 15);
}

/// Line breaks, then text without the context start marker, lack it.
proof fn lemma_newlines_then(n: Seq<char>, y: Seq<char>)
    requires
        forall|i: int| 0 <= i < n.len() ==> n[i] == '\n',
        !occurs_in(y, CONTEXT_START@),
    ensures
        !occurs_in(n + y, CONTEXT_START@),
{
    lemma_agents_markers();
    let cs = CONTEXT_START@;
    lemma_newlines_no_marker(n, cs);
    assert forall|i: int| 0 <= i < n.len() implies n[i] != cs[0] by {
        assert(n[i] == '\n');
    }
    lemma_no_occ_concat(n, y, cs);
}

/// Inserting the routing block into `pre + context block + post`, which
/// lacks the routing start marker, leaves both blocks found as written.
#[verifier::rlimit(40)]
#[verifier::spinoff_prover]
proof fn lemma_routing_insert_keeps_context(pre: Seq<char>, post: Seq<char>, routing: Seq<char>)
    requires
        pre.len() == 0 || pre.last() == '\n',
        !occurs_in(pre, CONTEXT_START@),
        !occurs_in(pre + context_block_text() + post, ROUTING_START@),
        block_ok(routing, ROUTING_START@, ROUTING_END@),
        !occurs_in(routing, CONTEXT_START@),
    ensures
        block_of(
            upsert_spec(pre + context_block_text() + post, routing, ROUTING_START@, ROUTING_END@, false).0,
            CONTEXT_START@,
            CONTEXT_END@,
        ) == Some(context_block_text()),
        block_of(
            upsert_spec(pre + context_block_text() + post, routing, ROUTING_START@, ROUTING_END@, false).0,
            ROUTING_START@,
            ROUTING_END@,
        ) == Some(routing),
{
    lemma_agents_markers();
    lemma_context_block_shape();
    let cs = CONTEXT_START@;
    let rs = ROUTING_START@;
    let ctx = context_block_text();
    let t1 = pre + ctx + post;
    let p = pre.len() as int;
    let c = ctx.len() as int;
    lemma_marker_lit_ok(rs);
    lemma_marker_lit_ok(cs);
    lemma_find_from(t1, rs, 0);
    if let Some(k) = find(t1, rs) {
        assert(occurs_at(t1, rs, k));
    }
    lemma_upsert_converges(t1, routing, rs, ROUTING_END@, false);
    let out = upsert_spec(t1, routing, rs, ROUTING_END@, false).0;
    let pre2: Seq<char>;
    let post2: Seq<char>;
    match h1_end(t1) {
        Some(le) => {
            lemma_h1_outside_context(pre, post);
            lemma_h1_end_from_bounds(t1, 0);
            let after = t1.subrange(le, t1.len() as int);
            let sep = if after.len() == 0 || after[0] == '\n' { seq!['\n'] } else { seq!['\n', '\n'] };
            if le >= p + c {
                pre2 = pre;
                post2 = t1.subrange(p + c, le) + seq!['\n'] + routing + sep + after;
            } else {
                let x = pre.subrange(0, le) + seq!['\n'];
                let y = sep + pre.subrange(le, p);
                lemma_no_occ_sub(pre, 0, le, cs);
                lemma_no_marker_nl(pre.subrange(0, le), seq!['\n'], cs);
                lemma_no_occ_sub(pre, le, p, cs);
                lemma_newlines_then(sep, pre.subrange(le, p));
                lemma_routing_between(x, y, routing);
                pre2 = x + routing + y;
                post2 = post;
                assert(t1.subrange(0, le) =~= pre.subrange(0, le));
                assert(after =~= pre.subrange(le, p) + ctx + post);
            }
            assert(out =~= pre2 + ctx + post2);
        },
        None => {
            lemma_newlines_then(seq!['\n', '\n'], pre);
            lemma_routing_between(seq![], seq!['\n', '\n'] + pre, routing);
            pre2 = seq![] + routing + (seq!['\n', '\n'] + pre);
            post2 = post;
            assert(out =~= pre2 + ctx + post2);
        },
    }
    lemma_block_in_concat(pre2, ctx, post2, cs, CONTEXT_END@);
}


/// Without an occurrence, `find` finds nothing; `contains` is occurrence.
proof fn lemma_contains_is_occurs(s: Seq<char>, p: Seq<char>)
    ensures
        contains(s, p) == occurs_in(s, p),
        !occurs_in(s, p) ==> find(s, p) is None,
{
    lemma_find_from(s, p, 0);
    if let Some(k) = find(s, p) {
        assert(occurs_at(s, p, k));
    }
}

/// Text inserted at a line boundary keeps every occurrence of a phrase
/// without line breaks.
proof fn lemma_phrase_kept(t: Seq<char>, le: int, mid: Seq<char>, p: Seq<char>)
    requires
        occurs_in(t, p),
        forall|i: int| 0 <= i < p.len() ==> p[i] != '\n',
        0 <= le <= t.len(),
        le == 0 || le == t.len() || t[le - 1] == '\n',
    ensures
        occurs_in(t.subrange(0, le) + mid + t.subrange(le, t.len() as int), p),
{
    let s = t.subrange(0, le) + mid + t.subrange(le, t.len() as int);
    let j = choose|j: int| occurs_at(t, p, j);
    let l = p.len() as int;
    if j + l <= le {
        assert(s.subrange(j, j + l) =~= t.subrange(j, j + l));
        assert(occurs_at(s, p, j));
    } else if j >= le {
        let k = j + mid.len();
        assert(s.subrange(k, k + l) =~= t.subrange(j, j + l));
        assert(occurs_at(s, p, k));
    } else {
        assert(t.subrange(j, j + l)[le - 1 - j] == t[le - 1]);
        assert(p[le - 1 - j] != '\n');
    }
}

/// Inserting the routing block into a file with the legacy unmarked pointer
/// (and no routing start marker) keeps the legacy pointer, and the routing
/// block reads back as written.
#[verifier::rlimit(30)]
proof fn lemma_routing_insert_keeps_legacy(t: Seq<char>, routing: Seq<char>)
    requires
        legacy_pointer(t),
        !occurs_in(t, ROUTING_START@),
        block_ok(routing, ROUTING_START@, ROUTING_END@),
        !occurs_in(routing, CONTEXT_START@),
    ensures
        legacy_pointer(upsert_spec(t, routing, ROUTING_START@, ROUTING_END@, false).0),
        block_of(upsert_spec(t, routing, ROUTING_START@, ROUTING_END@, false).0, ROUTING_START@, ROUTING_END@)
            == Some(routing),
{
    lemma_agents_markers();
    let cs = CONTEXT_START@;
    let rs = ROUTING_START@;
    let a = "## Repository context"@;
    let b = ".engineering/PROJECT_STATE.md"@;
    reveal_strlit("## Repository context");
    reveal_strlit(".engineering/PROJECT_STATE.md");
    lemma_contains_is_occurs(t, a);
    lemma_contains_is_occurs(t, b);
    lemma_contains_is_occurs(t, cs);
    lemma_contains_is_occurs(t, rs);
    lemma_marker_lit_ok(rs);
    lemma_upsert_converges(t, routing, rs, ROUTING_END@, false);
    let out = upsert_spec(t, routing, rs, ROUTING_END@, false).0;
    let le: int;
    let mid: Seq<char>;
    match h1_end(t) {
        Some(e) => {
            let o = lemma_h1_end_line(t, 0);
            lemma_line_shape(t, o);
            let after = t.subrange(e, t.len() as int);
            let sep = if after.len() == 0 || after[0] == '\n' { seq!['\n'] } else { seq!['\n', '\n'] };
            le = e;
            mid = seq!['\n'] + routing + sep;
            lemma_no_occ_sub(t, 0, e, cs);
            lemma_no_marker_nl(t.subrange(0, e), seq!['\n'], cs);
            lemma_no_occ_sub(t, e, t.len() as int, cs);
            lemma_newlines_then(sep, after);
            lemma_routing_between(t.subrange(0, e) + seq!['\n'], sep + after, routing);
            assert(out =~= t.subrange(0, e) + seq!['\n'] + routing + (sep + after));
        },
        None => {
            le = 0;
            mid = routing + seq!['\n', '\n'];
            lemma_newlines_then(seq!['\n', '\n'], t);
            lemma_newlines_no_marker(seq![], cs);
            lemma_routing_between(seq![], seq!['\n', '\n'] + t, routing);
            assert(out =~= seq![] + routing + (seq!['\n', '\n'] + t));
        },
    }
    assert(out =~= t.subrange(0, le) + mid + t.subrange(le, t.len() as int));
    lemma_phrase_kept(t, le, mid, a);
    lemma_phrase_kept(t, le, mid, b);
    lemma_contains_is_occurs(out, a);
    lemma_contains_is_occurs(out, b);
    lemma_contains_is_occurs(out, cs);
}


/// Runs converge: once `init` has written `AGENTS.md` (creating it, or
/// working on a file that holds neither the context nor the routing start
/// marker), the next `init`, `sync` or `sync --check` with the same routing
/// block finds nothing to write, so the file stays byte-identical across
/// runs. Holds when the routing block opens with its start marker, ends at
/// its first end marker and holds no context start marker.
#[verifier::rlimit(30)]
pub proof fn lemma_routing_runs_converge(
    existing: Option<Seq<char>>,
    n_subprojects: nat,
    routing: Seq<char>,
    first: RoutingMode,
    next: RoutingMode,
)
    requires
        block_ok(routing, ROUTING_START@, ROUTING_END@),
        !occurs_in(routing, CONTEXT_START@),
        existing matches Some(t) ==> !occurs_in(t, CONTEXT_START@) && !occurs_in(t, ROUTING_START@),
    ensures
        routing_update(existing, n_subprojects, routing, first).0 matches Some(t2) ==> routing_update(
            Some(t2),
            n_subprojects,
            routing,
            next,
        ).0 is None,
{
    lemma_agents_markers();
    let cs = CONTEXT_START@;
    let rs = ROUTING_START@;
    let ctx = context_block_text();
    if n_subprojects >= 2 {
        match existing {
            None => {
                if first == RoutingMode::Init {
                    lemma_newlines_no_marker(seq![], cs);
                    lemma_newlines_no_marker(seq![], rs);
                    let (pre, post) = lemma_context_insert(seq![]);
                    lemma_routing_insert_keeps_context(pre, post, routing);
                }
            },
            Some(t) => {
                lemma_contains_is_occurs(t, cs);
                lemma_contains_is_occurs(t, rs);
                assert(block_of(t, cs, CONTEXT_END@) is None);
                if legacy_pointer(t) {
                    assert(context_step(t, first, true).0 == t);
                    if first == RoutingMode::Init {
                        lemma_routing_insert_keeps_legacy(t, routing);
                        let t2 = upsert_spec(t, routing, rs, ROUTING_END@, false).0;
                        lemma_contains_is_occurs(t2, cs);
                        assert(block_of(t2, cs, CONTEXT_END@) is None);
                    }
                } else if first == RoutingMode::Init {
                    let (pre, post) = lemma_context_insert(t);
                    let t1 = upsert_spec(t, ctx, cs, CONTEXT_END@, true).0;
                    assert(t1 != t);
                    assert(context_step(t, first, false).0 == t1);
                    lemma_contains_is_occurs(t1, rs);
                    assert(block_of(t1, rs, ROUTING_END@) is None);
                    lemma_routing_insert_keeps_context(pre, post, routing);
                }
            },
        }
    }
}


/// A block found right after `pre` is replaced in place, every other byte
/// kept.
proof fn lemma_replace_block(pre: Seq<char>, x: Seq<char>, post: Seq<char>, r: Seq<char>, start: Seq<char>, end: Seq<char>, at_end: bool)
    requires
        marker_ok(start),
        block_ok(x, start, end),
        !occurs_in(pre, start),
    ensures
        block_of(pre + x + post, start, end) == Some(x),
        upsert_spec(pre + x + post, r, start, end, at_end).0 == pre + r + post,
{
    lemma_block_in_concat(pre, x, post, start, end);
    let t = pre + x + post;
    let p = pre.len() as int;
    assert(t.subrange(0, p) =~= pre);
    assert(t.subrange(p + x.len(), t.len() as int) =~= post);
}

/// A file holding both marked blocks apart, in either order, around the
/// user text `a`, `b` and `c`.
pub open spec fn two_blocks(a: Seq<char>, context: Seq<char>, b: Seq<char>, routing: Seq<char>, c: Seq<char>, routing_first: bool) -> Seq<char> {
    if routing_first {
        a + routing + b + context + c
    } else {
        a + context + b + routing + c
    }
}

/// Runs on a file that already holds both marked blocks apart, around text
/// without start markers, rewrite only the bytes inside the markers: what
/// is written holds the current context and routing blocks where the old
/// ones were, and the next run with the same routing block writes nothing.
/// Holds when each block opens with its start marker, ends at its first end
/// marker and holds no start marker of the other block.
#[verifier::rlimit(40)]
#[verifier::spinoff_prover]
pub proof fn lemma_marked_file_converges(
    a: Seq<char>,
    b: Seq<char>,
    c: Seq<char>,
    old_context: Seq<char>,
    old_routing: Seq<char>,
    routing: Seq<char>,
    routing_first: bool,
    n_subprojects: nat,
    first: RoutingMode,
    next: RoutingMode,
)
    requires
        block_ok(old_context, CONTEXT_START@, CONTEXT_END@),
        !occurs_in(old_context, ROUTING_START@),
        block_ok(old_routing, ROUTING_START@, ROUTING_END@),
        !occurs_in(old_routing, CONTEXT_START@),
        block_ok(routing, ROUTING_START@, ROUTING_END@),
        !occurs_in(routing, CONTEXT_START@),
        !occurs_in(a, CONTEXT_START@),
        !occurs_in(a, ROUTING_START@),
        !occurs_in(b, CONTEXT_START@),
        !occurs_in(b, ROUTING_START@),
        !occurs_in(c, CONTEXT_START@),
        !occurs_in(c, ROUTING_START@),
    ensures
        routing_update(Some(two_blocks(a, old_context, b, old_routing, c, routing_first)), n_subprojects, routing, first).0 matches Some(t2)
            ==> t2 == two_blocks(a, context_block_text(), b, routing, c, routing_first) && routing_update(Some(t2), n_subprojects, routing, next).0 is None,
{
    lemma_agents_markers();
    lemma_context_block_shape();
    let cs = CONTEXT_START@;
    let ce = CONTEXT_END@;
    let rs = ROUTING_START@;
    let re = ROUTING_END@;
    let ctx = context_block_text();
    lemma_marker_lit_ok(cs);
    lemma_marker_lit_ok(rs);
    let t = two_blocks(a, old_context, b, old_routing, c, routing_first);
    let done = two_blocks(a, ctx, b, routing, c, routing_first);
    if n_subprojects >= 2 {
        if !routing_first {
            // Context block first.
            lemma_replace_block(a, old_context, b + old_routing + c, ctx, cs, ce, true);
            assert(t =~= a + old_context + (b + old_routing + c));
            assert(a + ctx + (b + old_routing + c) =~= a + ctx + b + old_routing + c);
            let t1 = context_step(t, first, legacy_pointer(t)).0;
            let x = if old_context == ctx || first == RoutingMode::Report { old_context } else { ctx };
            assert(t1 == a + x + b + old_routing + c);
            lemma_block_wrap(a, x, b, cs, ce, rs, 15);
            lemma_replace_block(a + x + b, old_routing, c, routing, rs, re, false);
            // The written file, read again.
            lemma_replace_block(a, ctx, b + routing + c, ctx, cs, ce, true);
            assert(a + ctx + (b + routing + c) =~= done);
            lemma_block_wrap(a, ctx, b, cs, ce, rs, 15);
            lemma_replace_block(a + ctx + b, routing, c, routing, rs, re, false);
        } else {
            // Routing block first.
            lemma_block_wrap(a, old_routing, b, rs, re, cs, 15);
            lemma_replace_block(a + old_routing + b, old_context, c, ctx, cs, ce, true);
            let t1 = context_step(t, first, legacy_pointer(t)).0;
            let x = if old_context == ctx || first == RoutingMode::Report { old_context } else { ctx };
            assert(t1 == a + old_routing + b + x + c);
            lemma_replace_block(a, old_routing, b + x + c, routing, rs, re, false);
            assert(t1 =~= a + old_routing + (b + x + c));
            assert(a + routing + (b + x + c) =~= a + routing + b + x + c);
            // The written file, read again.
            lemma_block_wrap(a, routing, b, rs, re, cs, 15);
            lemma_replace_block(a + routing + b, ctx, c, ctx, cs, ce, true);
            lemma_replace_block(a, routing, b + ctx + c, routing, rs, re, false);
            assert(a + routing + (b + ctx + c) =~= done);
        }
    }
}


/// Runs on a file holding the marked context block but no routing block,
/// the text before the block being empty or ending its last line: `init`
/// refreshes the context block in place and inserts the routing block,
/// `sync` refreshes the context block only, and the next run with the same
/// routing block writes nothing (but an `init` after a `sync`, which
/// inserts the missing routing block). Holds when each block opens with its
/// start marker, ends at its first end marker and holds no start marker of
/// the other block.
#[verifier::rlimit(30)]
pub proof fn lemma_context_file_converges(
    a: Seq<char>,
    c: Seq<char>,
    old_context: Seq<char>,
    routing: Seq<char>,
    n_subprojects: nat,
    first: RoutingMode,
    next: RoutingMode,
)
    requires
        a.len() == 0 || a.last() == '\n',
        block_ok(old_context, CONTEXT_START@, CONTEXT_END@),
        !occurs_in(old_context, ROUTING_START@),
        block_ok(routing, ROUTING_START@, ROUTING_END@),
        !occurs_in(routing, CONTEXT_START@),
        !occurs_in(a, CONTEXT_START@),
        !occurs_in(a, ROUTING_START@),
        !occurs_in(c, ROUTING_START@),
        first == RoutingMode::Init || next != RoutingMode::Init,
    ensures
        routing_update(Some(a + old_context + c), n_subprojects, routing, first).0 matches Some(t2)
            ==> routing_update(Some(t2), n_subprojects, routing, next).0 is None,
{
    lemma_agents_markers();
    lemma_context_block_shape();
    let cs = CONTEXT_START@;
    let ce = CONTEXT_END@;
    let rs = ROUTING_START@;
    let ctx = context_block_text();
    lemma_marker_lit_ok(cs);
    lemma_marker_lit_ok(rs);
    let t = a + old_context + c;
    if n_subprojects >= 2 {
        lemma_replace_block(a, old_context, c, ctx, cs, ce, true);
        let x = if old_context == ctx || first == RoutingMode::Report { old_context } else { ctx };
        let t1 = context_step(t, first, legacy_pointer(t)).0;
        assert(t1 == a + x + c);
        lemma_block_wrap(a, x, c, cs, ce, rs, 15);
        lemma_contains_is_occurs(t1, rs);
        assert(block_of(t1, rs, ROUTING_END@) is None);
        if first == RoutingMode::Init {
            lemma_context_wrap(a, c);
            lemma_routing_insert_keeps_context(a, c, routing);
        } else {
            // The written file, read again.
            lemma_replace_block(a, ctx, c, ctx, cs, ce, true);
            lemma_context_wrap(a, c);
            lemma_contains_is_occurs(a + ctx + c, rs);
        }
    }
}


/// A phrase found in `a` or in `c` is found in `a + x + c`.
proof fn lemma_phrase_around(a: Seq<char>, x: Seq<char>, c: Seq<char>, p: Seq<char>)
    requires
        contains(a, p) || contains(c, p),
    ensures
        contains(a + x + c, p),
{
    lemma_contains_is_occurs(a, p);
    lemma_contains_is_occurs(c, p);
    lemma_contains_is_occurs(a + x + c, p);
    let s = a + x + c;
    let l = p.len() as int;
    if occurs_in(a, p) {
        let j = choose|j: int| occurs_at(a, p, j);
        assert(s.subrange(j, j + l) =~= a.subrange(j, j + l));
        assert(occurs_at(s, p, j));
    } else {
        let j = choose|j: int| occurs_at(c, p, j);
        let k = j + a.len() + x.len();
        assert(s.subrange(k, k + l) =~= c.subrange(j, j + l));
        assert(occurs_at(s, p, k));
    }
}

/// Runs on a file holding the routing block and, outside it, the legacy
/// unmarked pointer (as `agent install` appends it): the routing block is
/// refreshed in place, the legacy pointer is left as it is, and the next run
/// with the same routing block writes nothing. Holds when the routing
/// blocks open with their start marker, end at their first end marker and
/// hold no context start marker.
#[verifier::rlimit(30)]
pub proof fn lemma_legacy_file_converges(
    a: Seq<char>,
    c: Seq<char>,
    old_routing: Seq<char>,
    routing: Seq<char>,
    n_subprojects: nat,
    first: RoutingMode,
    next: RoutingMode,
)
    requires
        contains(a, "## Repository context"@) || contains(c, "## Repository context"@),
        contains(a, ".engineering/PROJECT_STATE.md"@) || contains(c, ".engineering/PROJECT_STATE.md"@),
        block_ok(old_routing, ROUTING_START@, ROUTING_END@),
        !occurs_in(old_routing, CONTEXT_START@),
        block_ok(routing, ROUTING_START@, ROUTING_END@),
        !occurs_in(routing, CONTEXT_START@),
        !occurs_in(a, CONTEXT_START@),
        !occurs_in(a, ROUTING_START@),
        !occurs_in(c, CONTEXT_START@),
    ensures
        routing_update(Some(a + old_routing + c), n_subprojects, routing, first).0 matches Some(t2)
            ==> t2 == a + routing + c && routing_update(Some(t2), n_subprojects, routing, next).0 is None,
{
    lemma_agents_markers();
    let cs = CONTEXT_START@;
    let rs = ROUTING_START@;
    let re = ROUTING_END@;
    lemma_marker_lit_ok(rs);
    let t = a + old_routing + c;
    let t2 = a + routing + c;
    if n_subprojects >= 2 {
        lemma_phrase_around(a, old_routing, c, "## Repository context"@);
        lemma_phrase_around(a, old_routing, c, ".engineering/PROJECT_STATE.md"@);
        lemma_routing_between(a, c, old_routing);
        lemma_contains_is_occurs(t, cs);
        assert(legacy_pointer(t));
        assert(context_step(t, first, true).0 == t);
        lemma_replace_block(a, old_routing, c, routing, rs, re, false);
        // The written file, read again.
        lemma_phrase_around(a, routing, c, "## Repository context"@);
        lemma_phrase_around(a, routing, c, ".engineering/PROJECT_STATE.md"@);
        lemma_routing_between(a, c, routing);
        lemma_contains_is_occurs(t2, cs);
        assert(legacy_pointer(t2));
        lemma_replace_block(a, routing, c, routing, rs, re, false);
    }
}


/// Decimal renderings hold digits only: no `<`, no line break.
proof fn lemma_decimal_plain(n: nat)
    ensures
        forall|i: int| 0 <= i < decimal(n).len() ==> decimal(n)[i] != '<' && decimal(n)[i] != '\n',
    decreases n,
{
    let k = n % 10;
    let dc = crate::text::digit_char(k);
    assert(dc == ((48 + k) as u32) as char);
    assert(dc != '<' && dc != '\n');
    if n >= 10 {
        lemma_decimal_plain(n / 10);
        let s = decimal(n / 10);
        assert(decimal(n) == s.push(dc));
        assert forall|i: int| 0 <= i < decimal(n).len() implies decimal(n)[i] != '<' && decimal(n)[i] != '\n' by {
            if i < s.len() {
                assert(decimal(n)[i] == s[i]);
            } else {
                assert(decimal(n)[i] == dc);
            }
        }
    } else {
        assert(k == n);
        assert(decimal(n) == seq![dc]);
    }
}

/// A text opening with a line break cannot complete an occurrence of a
/// marker without line breaks that starts before it.
proof fn lemma_no_occ_split_nl(x: Seq<char>, y: Seq<char>, m: Seq<char>)
    requires
        !occurs_in(x, m),
        !occurs_in(y, m),
        y.len() > 0,
        y[0] == '\n',
        forall|i: int| 0 <= i < m.len() ==> m[i] != '\n',
    ensures
        !occurs_in(x + y, m),
{
    let s = x + y;
    if occurs_in(s, m) {
        let j = choose|j: int| occurs_at(s, m, j);
        let l = m.len() as int;
        if j + l <= x.len() {
            assert(x.subrange(j, j + l) =~= s.subrange(j, j + l));
            assert(occurs_at(x, m, j));
        } else if j >= x.len() {
            assert(y.subrange(j - x.len(), j - x.len() + l) =~= s.subrange(j, j + l));
            assert(occurs_at(y, m, j - x.len()));
        } else {
            assert(s.subrange(j, j + l)[x.len() - j] == s[x.len() as int]);
        }
    }
}

/// The fixed routing texts hold no `<` and open with a line break.
proof fn lemma_routing_texts()
    ensures
        ROUTING_HEAD@.len() > 30 && ROUTING_HEAD@[0] == '\n',
        ROUTING_COUNT_TAIL@.len() > 30,
        ROUTING_RULES@.len() > 0 && ROUTING_RULES@[0] == '\n',
        forall|i: int| 0 <= i < ROUTING_HEAD@.len() ==> ROUTING_HEAD@[i] != '<',
        forall|i: int| 0 <= i < ROUTING_COUNT_TAIL@.len() ==> ROUTING_COUNT_TAIL@[i] != '<',
        forall|i: int| 0 <= i < ROUTING_RULES@.len() ==> ROUTING_RULES@[i] != '<',
{
    reveal_strlit("\n## Subprojects — read exactly one\n\nThis repository has ");
    reveal_strlit(" subprojects. Do not explore the tree broadly.\n\n");
    reveal_strlit("\n\nRules:\n\n- Identify the subproject that owns your task's files and read only its entry context.\n- A file belongs to exactly one subproject; that subproject's `AGENTS.md` governs it.\n- Cross-cutting work: this block plus `.engineering/PROJECT_STATE.md`, nothing else.\n\n> Generated by `aicontext sync`. Do not edit inside this block.\n");
}

/// Text before the table of the routing block lacks marker `m` (one of the
/// routing end or context start markers).
#[verifier::rlimit(30)]
proof fn lemma_routing_prefix(n: nat, m: Seq<char>, d: int)
    requires
        marker_lit(m),
        m.len() <= 32,
        0 <= d < m.len(),
        ROUTING_START@[d] != m[d],
    ensures
        !occurs_in(ROUTING_START@ + ROUTING_HEAD@ + decimal(n) + ROUTING_COUNT_TAIL@, m),
{
    lemma_agents_markers();
    lemma_routing_texts();
    lemma_decimal_plain(n);
    let rs = ROUTING_START@;
    let h = ROUTING_HEAD@;
    let h1 = h.drop_first();
    let dt = decimal(n) + ROUTING_COUNT_TAIL@;
    lemma_distinct_markers(rs, m, d);
    lemma_no_occ_without_head(h1, m);
    lemma_marker_then_text(seq![], rs, h1, m);
    assert(seq![] + rs + seq!['\n'] + h1 =~= rs + h);
    let x1 = rs + h;
    assert forall|i: int| 0 <= i < dt.len() implies dt[i] != m[0] by {
        if i >= decimal(n).len() {
            assert(dt[i] == ROUTING_COUNT_TAIL@[i - decimal(n).len()]);
        }
    }
    lemma_no_occ_without_head(dt, m);
    assert forall|i: int| 0 <= i && x1.len() - m.len() < i < x1.len() implies x1[i] != m[0] by {
        assert(x1[i] == h[i - 32]);
    }
    lemma_no_occ_concat(x1, dt, m);
    assert(x1 + dt =~= rs + h + decimal(n) + ROUTING_COUNT_TAIL@);
}

/// The rendered routing block is a marked block (it opens with its start
/// marker and its first end marker is its tail) without the context start
/// marker, as long as its table holds neither the routing end marker nor
/// the context start marker.
#[verifier::rlimit(30)]
pub proof fn lemma_routing_block_marked(subs: Seq<Subproject>, file: Option<&SubprojectsFile>)
    requires
        !occurs_in(subproject_table(subs, file), ROUTING_END@),
        !occurs_in(subproject_table(subs, file), CONTEXT_START@),
    ensures
        block_ok(routing_block_text(subs, file), ROUTING_START@, ROUTING_END@),
        !occurs_in(routing_block_text(subs, file), CONTEXT_START@),
{
    lemma_agents_markers();
    lemma_routing_texts();
    let rs = ROUTING_START@;
    let re = ROUTING_END@;
    let cs = CONTEXT_START@;
    let n = subs.len();
    let tab = subproject_table(subs, file);
    let x2 = rs + ROUTING_HEAD@ + decimal(n) + ROUTING_COUNT_TAIL@;
    let x3 = x2 + tab;
    let x4 = x3 + ROUTING_RULES@;
    let r = routing_block_text(subs, file);
    assert(r =~= x4 + re);
    lemma_decimal_plain(n);
    let tail = ROUTING_COUNT_TAIL@;
    let rules = ROUTING_RULES@;
    assert forall|i: int| 0 <= i && x2.len() - 30 <= i < x2.len() implies x2[i] != '<' by {
        assert(x2[i] == tail[i - (x2.len() - tail.len())]);
    }
    lemma_no_occ_without_head(rules, re);
    lemma_no_occ_without_head(rules, cs);
    // No routing end marker before the tail.
    lemma_routing_prefix(n, re, 23);
    lemma_no_occ_concat(x2, tab, re);
    lemma_no_occ_split_nl(x3, rules, re);
    lemma_head_unique_no_overlap(re);
    lemma_find_after(x4, re, seq![]);
    assert(x4 + re + seq![] =~= r);
    assert(r.subrange(0, 32) =~= rs);
    // No context start marker anywhere.
    lemma_routing_prefix(n, cs, 15);
    lemma_no_occ_concat(x2, tab, cs);
    lemma_no_occ_split_nl(x3, rules, cs);
    lemma_distinct_markers(re, cs, 15);
    lemma_no_occ_concat_head(x4, re, cs);
}


/// `init` then any later run, as [`update_agents_routing`] performs them on
/// the same subprojects: once `init` has created `AGENTS.md` or written it
/// from a file without context or routing start markers, the next run
/// writes nothing. Holds when the subproject table holds neither the
/// routing end marker nor the context start marker.
pub proof fn lemma_agents_md_converges(
    existing: Option<Seq<char>>,
    subs: Seq<Subproject>,
    file: Option<&SubprojectsFile>,
    first: RoutingMode,
    next: RoutingMode,
)
    requires
        !occurs_in(subproject_table(subs, file), ROUTING_END@),
        !occurs_in(subproject_table(subs, file), CONTEXT_START@),
        existing matches Some(t) ==> !occurs_in(t, CONTEXT_START@) && !occurs_in(t, ROUTING_START@),
    ensures
        routing_update(existing, subs.len(), routing_block_text(subs, file), first).0 matches Some(t2)
            ==> routing_update(Some(t2), subs.len(), routing_block_text(subs, file), next).0 is None,
{
    lemma_routing_block_marked(subs, file);
    lemma_routing_runs_converge(existing, subs.len(), routing_block_text(subs, file), first, next);
}


/// A line of `ls`, read back without a final carriage return, still trims
/// to the same entry.
proof fn lemma_has_line_after_readback(ls: Seq<Seq<char>>, e: Seq<char>)
    requires
        has_line(ls, e),
    ensures
        has_line(ls.map_values(|l: Seq<char>| crate::text::strip_cr(l)), e),
{
    let i = choose|i: int| 0 <= i < ls.len() && trim(#[trigger] ls[i]) == e;
    let l = ls[i];
    let back = ls.map_values(|l: Seq<char>| crate::text::strip_cr(l));
    assert(back[i] == crate::text::strip_cr(l));
    if l.len() > 0 && l.last() == '\r' {
        assert(l =~= l.drop_last().push('\r'));
        crate::text::lemma_trim_cr(l.drop_last());
    }
    assert(trim(back[i]) == e);
}

/// An entry pushed onto the lines is found there; lines found stay found.
proof fn lemma_has_line_push(ls: Seq<Seq<char>>, x: Seq<char>, e: Seq<char>)
    requires
        has_line(ls, e) || trim(x) == e,
    ensures
        has_line(ls.push(x), e),
{
    if has_line(ls, e) {
        let i = choose|i: int| 0 <= i < ls.len() && trim(#[trigger] ls[i]) == e;
        assert(ls.push(x)[i] == ls[i]);
    } else {
        assert(ls.push(x)[ls.len() as int] == x);
    }
}

/// `init` converges on `.gitignore`: once it has written the missing
/// entries, the file it wrote reads back with both entries found, so the
/// next `init` writes nothing.
#[verifier::rlimit(30)]
pub proof fn lemma_gitignore_converges(existing: Option<Seq<char>>)
    ensures
        ({
            let ls = match existing {
                Some(t) => lines(t),
                None => seq![],
            };
            let written = join(ignore_lines(ls), "\n"@) + "\n"@;
            ignore_lines(ls) != ls ==> ignore_lines(lines(written)) == lines(written)
        }),
{
    reveal_strlit("\n");
    reveal_strlit(".aicontext/");
    reveal_strlit(".tgrep/");
    let a = ".aicontext/"@;
    let g = ".tgrep/"@;
    assert(trim_start(a) == a);
    assert(crate::text::trim_end(a) == a);
    assert(trim_start(g) == g);
    assert(crate::text::trim_end(g) == g);
    let ls = match existing {
        Some(t) => lines(t),
        None => seq![],
    };
    if let Some(t) = existing {
        crate::text::lemma_lines_one_line(t);
    }
    let mid = if has_line(ls, a) { ls } else { ls.push(a) };
    let new_ls = ignore_lines(ls);
    if new_ls != ls {
        if !has_line(ls, a) {
            lemma_has_line_push(ls, a, a);
        }
        if has_line(mid, g) {
            assert(new_ls == mid);
        } else {
            lemma_has_line_push(mid, g, g);
            lemma_has_line_push(mid, g, a);
        }
        assert(has_line(new_ls, a));
        assert(has_line(new_ls, g));
        assert(new_ls.len() >= 1);
        assert forall|i: int| 0 <= i < new_ls.len() implies crate::text::one_line(#[trigger] new_ls[i]) by {
            if i < ls.len() {
                assert(new_ls[i] == ls[i]);
            } else if new_ls[i] == a {
            } else {
                assert(new_ls[i] == g);
            }
        }
        crate::text::lemma_lines_join(new_ls);
        assert("\n"@ =~= seq!['\n']);
        lemma_has_line_after_readback(new_ls, a);
        lemma_has_line_after_readback(new_ls, g);
    }
}


/// `init` and `sync` converge on `PROJECT_STATE.md`: a state written around
/// a fresh generated block (whatever its curated text) shows no drift
/// against that block, so the next `sync` writes nothing and `status`
/// reports it synchronized. Holds when the generated block holds no
/// generated end marker.
pub proof fn lemma_state_converges(curated: Seq<char>, fresh: Seq<char>)
    requires
        !occurs_in(fresh, GEN_END@),
    ensures
        !drift_spec(project_state_text(fresh, curated), fresh),
        between(project_state_text(fresh, curated), GEN_START@, GEN_END@) is Some,
{
    lemma_generated_roundtrip(fresh, curated);
}


/// The subprojects file marks `path` as adopted.
pub open spec fn is_adopted(entries: Seq<SubprojectEntry>, path: Seq<char>) -> bool {
    exists|i: int| 0 <= i < entries.len() && #[trigger] entries[i].status@ == "adopted"@ && entries[i].path@ == path
}

/// How many of the detected subprojects the file marks as adopted.
pub open spec fn adopted_among(subs: Seq<Subproject>, entries: Seq<SubprojectEntry>) -> nat
    decreases subs.len(),
{
    if subs.len() == 0 {
        0
    } else {
        adopted_among(subs.drop_last(), entries) + if is_adopted(entries, subs.last().path@) { 1nat } else { 0nat }
    }
}

pub open spec fn entries_of(file: Option<&SubprojectsFile>) -> Seq<SubprojectEntry> {
    match file {
        Some(f) => f.subprojects@,
        None => seq![],
    }
}

fn is_adopted_exec(entries: &Vec<SubprojectEntry>, path: &str) -> (r: bool)
    ensures
        r == is_adopted(entries@, path@),
{
    let mut i: usize = 0;
    while i < entries.len()
        invariant
            i <= entries.len(),
            forall|k: int| 0 <= k < i ==> !(#[trigger] entries@[k].status@ == "adopted"@ && entries@[k].path@ == path@),
        decreases entries.len() - i,
    {
        if same_str(entries[i].status.as_str(), "adopted") && same_str(entries[i].path.as_str(), path) {
            assert(entries@[i as int].status@ == "adopted"@ && entries@[i as int].path@ == path@);
            return true;
        }
        i += 1;
    }
    false
}

/// What `status` counts of the subprojects: detected, adopted (detected and
/// marked `adopted` in the subprojects file) and pending (the rest).
pub fn subproject_counts(subprojects: &Vec<Subproject>, file: Option<&SubprojectsFile>) -> (r: (usize, usize, usize))
    ensures
        r.0 == subprojects.len(),
        r.1 == adopted_among(subprojects@, entries_of(file)),
        r.1 <= r.0,
        r.2 == r.0 - r.1,
{
    let empty: Vec<SubprojectEntry> = Vec::new();
    let entries = match file {
        Some(f) => &f.subprojects,
        None => &empty,
    };
    assert(entries@ == entries_of(file));
    let mut adopted: usize = 0;
    let mut i: usize = 0;
    while i < subprojects.len()
        invariant
            i <= subprojects.len(),
            entries@ == entries_of(file),
            adopted == adopted_among(subprojects@.take(i as int), entries@),
            adopted <= i,
        decreases subprojects.len() - i,
    {
        assert(subprojects@.take(i + 1).drop_last() =~= subprojects@.take(i as int));
        assert(subprojects@.take(i + 1).last() == subprojects@[i as int]);
        if is_adopted_exec(entries, subprojects[i].path.as_str()) {
            adopted += 1;
        }
        i += 1;
    }
    assert(subprojects@.take(i as int) =~= subprojects@);
    (subprojects.len(), adopted, subprojects.len() - adopted)
}


/// `sync` never inserts a missing block: on a file holding neither marked
/// block it writes nothing.
pub proof fn lemma_sync_inserts_nothing(t: Seq<char>, n_subprojects: nat, routing: Seq<char>)
    requires
        block_of(t, CONTEXT_START@, CONTEXT_END@) is None,
        block_of(t, ROUTING_START@, ROUTING_END@) is None,
    ensures
        routing_update(Some(t), n_subprojects, routing, RoutingMode::Sync).0 is None,
{
}


/// Line breaks, then text without marker `m`, lack it.
proof fn lemma_newlines_then_marker(n: Seq<char>, y: Seq<char>, m: Seq<char>)
    requires
        marker_lit(m),
        forall|i: int| 0 <= i < n.len() ==> n[i] == '\n',
        !occurs_in(y, m),
    ensures
        !occurs_in(n + y, m),
{
    lemma_newlines_no_marker(n, m);
    assert forall|i: int| 0 <= i < n.len() implies n[i] != m[0] by {
        assert(n[i] == '\n');
    }
    lemma_no_occ_concat(n, y, m);
}


/// After `init` inserts the context block into `t` and refreshes the
/// routing block: the routing block was found as `old_routing`, and the
/// written text holds both blocks as rendered.
pub open spec fn context_then_routing(t: Seq<char>, old_routing: Seq<char>, routing: Seq<char>) -> bool {
    let t1 = upsert_spec(t, context_block_text(), CONTEXT_START@, CONTEXT_END@, true).0;
    let t2 = upsert_spec(t1, routing, ROUTING_START@, ROUTING_END@, false).0;
    &&& t1.len() > t.len()
    &&& block_of(t1, ROUTING_START@, ROUTING_END@) == Some(old_routing)
    &&& block_of(t2, CONTEXT_START@, CONTEXT_END@) == Some(context_block_text())
    &&& block_of(t2, ROUTING_START@, ROUTING_END@) == Some(routing)
    &&& (old_routing == routing ==> t2 == t1)
}

/// The context block goes before the routing block, after the first
/// heading.
#[verifier::rlimit(40)]
proof fn lemma_context_before_routing(a: Seq<char>, c: Seq<char>, old_routing: Seq<char>, routing: Seq<char>, le: int)
    requires
        h1_end(a + old_routing + c) == Some(le),
        0 < le <= a.len(),
        block_ok(old_routing, ROUTING_START@, ROUTING_END@),
        !occurs_in(old_routing, CONTEXT_START@),
        block_ok(routing, ROUTING_START@, ROUTING_END@),
        !occurs_in(routing, CONTEXT_START@),
        !occurs_in(a, CONTEXT_START@),
        !occurs_in(a, ROUTING_START@),
        !occurs_in(c, CONTEXT_START@),
    ensures
        context_then_routing(a + old_routing + c, old_routing, routing),
{
    lemma_agents_markers();
    lemma_context_block_shape();
    let cs = CONTEXT_START@;
    let ce = CONTEXT_END@;
    let rs = ROUTING_START@;
    let re = ROUTING_END@;
    let ctx = context_block_text();
    lemma_marker_lit_ok(cs);
    lemma_marker_lit_ok(rs);
    let t = a + old_routing + c;
    let t1 = upsert_spec(t, ctx, cs, ce, true).0;
    lemma_routing_between(a, c, old_routing);
    lemma_contains_is_occurs(t, cs);
    let after = t.subrange(le, t.len() as int);
    let sep = if after.len() == 0 || after[0] == '\n' { seq!['\n'] } else { seq!['\n', '\n'] };
    let x = a.subrange(0, le) + seq!['\n'];
    let y = sep + a.subrange(le, a.len() as int);
    lemma_no_occ_sub(a, 0, le, rs);
    lemma_no_marker_nl(a.subrange(0, le), seq!['\n'], rs);
    lemma_no_occ_sub(a, le, a.len() as int, rs);
    lemma_newlines_then_marker(sep, a.subrange(le, a.len() as int), rs);
    lemma_context_wrap(x, y);
    assert(t.subrange(0, le) =~= a.subrange(0, le));
    assert(after =~= a.subrange(le, a.len() as int) + old_routing + c);
    assert(t1 =~= (x + ctx + y) + old_routing + c);
    lemma_replace_block(x + ctx + y, old_routing, c, routing, rs, re, false);
    lemma_no_occ_sub(a, 0, le, cs);
    lemma_no_marker_nl(a.subrange(0, le), seq!['\n'], cs);
    let t2 = (x + ctx + y) + routing + c;
    assert(t2 =~= x + ctx + (y + routing + c));
    lemma_replace_block(x, ctx, y + routing + c, ctx, cs, ce, true);
    lemma_replace_block(x + ctx + y, routing, c, routing, rs, re, false);
}

/// The context block goes after the routing block: after the first
/// heading, or at the end (`le` being the text's length then).
#[verifier::rlimit(40)]
proof fn lemma_context_after_routing(a: Seq<char>, c: Seq<char>, old_routing: Seq<char>, routing: Seq<char>)
    requires
        h1_end(a + old_routing + c) matches Some(le) ==> le >= a.len() + old_routing.len(),
        block_ok(old_routing, ROUTING_START@, ROUTING_END@),
        !occurs_in(old_routing, CONTEXT_START@),
        block_ok(routing, ROUTING_START@, ROUTING_END@),
        !occurs_in(routing, CONTEXT_START@),
        !occurs_in(a, CONTEXT_START@),
        !occurs_in(a, ROUTING_START@),
        !occurs_in(c, CONTEXT_START@),
    ensures
        context_then_routing(a + old_routing + c, old_routing, routing),
{
    lemma_agents_markers();
    lemma_context_block_shape();
    let cs = CONTEXT_START@;
    let ce = CONTEXT_END@;
    let rs = ROUTING_START@;
    let re = ROUTING_END@;
    let ctx = context_block_text();
    lemma_marker_lit_ok(cs);
    lemma_marker_lit_ok(rs);
    let t = a + old_routing + c;
    let t1 = upsert_spec(t, ctx, cs, ce, true).0;
    lemma_routing_between(a, c, old_routing);
    lemma_contains_is_occurs(t, cs);
    let y: Seq<char>;
    let z: Seq<char>;
    match h1_end(t) {
        Some(le) => {
            lemma_h1_end_from_bounds(t, 0);
            let after = t.subrange(le, t.len() as int);
            let sep = if after.len() == 0 || after[0] == '\n' { seq!['\n'] } else { seq!['\n', '\n'] };
            let k = le - a.len() - old_routing.len();
            y = c.subrange(0, k) + seq!['\n'];
            z = sep + c.subrange(k, c.len() as int);
            assert(t.subrange(0, le) =~= a + old_routing + c.subrange(0, k));
            assert(after =~= c.subrange(k, c.len() as int));
            lemma_no_occ_sub(c, 0, k, cs);
            lemma_no_marker_nl(c.subrange(0, k), seq!['\n'], cs);
        },
        None => {
            let nl = if t.last() == '\n' { seq!['\n'] } else { seq!['\n', '\n'] };
            y = c + nl;
            z = seq!['\n'];
            lemma_no_marker_nl(c, nl, cs);
        },
    }
    assert(t1 =~= a + old_routing + (y + ctx + z));
    lemma_replace_block(a, old_routing, y + ctx + z, routing, rs, re, false);
    lemma_routing_between(a, y, routing);
    let t2 = a + routing + (y + ctx + z);
    assert(t2 =~= (a + routing + y) + ctx + z);
    lemma_replace_block(a + routing + y, ctx, z, ctx, cs, ce, true);
    lemma_replace_block(a, routing, y + ctx + z, routing, rs, re, false);
}

/// Runs on a file holding the routing block but neither the context block
/// nor the legacy pointer, the text before the block being empty or ending
/// its last line: `init` inserts the context block and refreshes the
/// routing block in place, `sync` refreshes the routing block only, and the
/// next run with the same routing block writes nothing (but an `init` after
/// a `sync`, which inserts the missing context block). Holds when the
/// routing blocks open with their start marker, end at their first end
/// marker and hold no context start marker, and every line of the old
/// routing block opens plainly (no level-1 heading inside it).
#[verifier::rlimit(30)]
pub proof fn lemma_routing_file_converges(
    a: Seq<char>,
    c: Seq<char>,
    old_routing: Seq<char>,
    routing: Seq<char>,
    n_subprojects: nat,
    first: RoutingMode,
    next: RoutingMode,
)
    requires
        a.len() == 0 || a.last() == '\n',
        block_ok(old_routing, ROUTING_START@, ROUTING_END@),
        !occurs_in(old_routing, CONTEXT_START@),
        plain_lines(old_routing),
        block_ok(routing, ROUTING_START@, ROUTING_END@),
        !occurs_in(routing, CONTEXT_START@),
        !occurs_in(a, CONTEXT_START@),
        !occurs_in(a, ROUTING_START@),
        !occurs_in(c, CONTEXT_START@),
        !legacy_pointer(a + old_routing + c),
        first == RoutingMode::Init || next != RoutingMode::Init,
    ensures
        routing_update(Some(a + old_routing + c), n_subprojects, routing, first).0 matches Some(t2)
            ==> routing_update(Some(t2), n_subprojects, routing, next).0 is None,
{
    lemma_agents_markers();
    let cs = CONTEXT_START@;
    let rs = ROUTING_START@;
    let re = ROUTING_END@;
    lemma_marker_lit_ok(rs);
    let t = a + old_routing + c;
    if n_subprojects >= 2 {
        lemma_routing_between(a, c, old_routing);
        lemma_contains_is_occurs(t, cs);
        assert(block_of(t, cs, CONTEXT_END@) is None);
        if first == RoutingMode::Init {
            if let Some(le) = h1_end(t) {
                lemma_h1_outside_block(a, old_routing, c);
                lemma_h1_end_from_bounds(t, 0);
                if le <= a.len() {
                    lemma_context_before_routing(a, c, old_routing, routing, le);
                } else {
                    lemma_context_after_routing(a, c, old_routing, routing);
                }
            } else {
                lemma_context_after_routing(a, c, old_routing, routing);
            }
            let t1 = upsert_spec(t, context_block_text(), cs, CONTEXT_END@, true).0;
            assert(t1 != t);
            assert(context_step(t, first, false).0 == t1);
            assert(context_step(t, first, false).1);
        } else {
            lemma_replace_block(a, old_routing, c, routing, rs, re, false);
            // The written file, read again.
            lemma_routing_between(a, c, routing);
            lemma_contains_is_occurs(a + routing + c, cs);
            lemma_replace_block(a, routing, c, routing, rs, re, false);
        }
    }
}


/// Every line after a line break inside `s` opens plainly.
pub open spec fn plain_after_breaks(s: Seq<char>) -> bool {
    forall|k: int| 0 < k < s.len() && s[k - 1] == '\n' ==> #[trigger] crate::agent::line_head_plain(s, k)
}

proof fn lemma_plain_concat(x: Seq<char>, y: Seq<char>)
    requires
        plain_after_breaks(x),
        plain_after_breaks(y),
        x.len() > 0 && x.last() == '\n' && y.len() > 0 ==> crate::agent::line_head_plain(y, 0),
    ensures
        plain_after_breaks(x + y),
{
    let s = x + y;
    assert forall|k: int| 0 < k < s.len() && s[k - 1] == '\n' implies #[trigger] crate::agent::line_head_plain(s, k) by {
        if k < x.len() {
            assert(x[k - 1] == s[k - 1]);
            assert(crate::agent::line_head_plain(x, k));
            assert(s[k] == x[k]);
            if k + 1 < x.len() {
                assert(s[k + 1] == x[k + 1]);
            }
        } else if k == x.len() {
            assert(crate::agent::line_head_plain(y, 0));
            assert(s[k] == y[0]);
            if 1 < y.len() {
                assert(s[k + 1] == y[1]);
            }
        } else {
            let j = k - x.len();
            assert(y[j - 1] == s[k - 1]);
            assert(crate::agent::line_head_plain(y, j));
            assert(s[k] == y[j]);
            if j + 1 < y.len() {
                assert(s[k + 1] == y[j + 1]);
            }
        }
    }
}

proof fn lemma_one_line_concat(a: Seq<char>, b: Seq<char>)
    requires
        crate::text::one_line(a),
        crate::text::one_line(b),
    ensures
        crate::text::one_line(a + b),
{
    assert forall|j: int| 0 <= j < (a + b).len() implies (a + b)[j] != '\n' by {
        if j < a.len() {
            assert((a + b)[j] == a[j]);
        } else {
            assert((a + b)[j] == b[j - a.len()]);
        }
    }
}

/// A table cell holds no line break.
proof fn lemma_cell_one_line(v: Seq<char>)
    ensures
        crate::text::one_line(cell(v)),
{
    reveal_strlit("—");
    reveal_strlit(" ");
    crate::text::lemma_words_one_line(v);
    assert(crate::text::one_line(seq![' ']));
    crate::text::lemma_join_one_line(words(v), seq![' ']);
    crate::text::lemma_escape_one_line(join(words(v), seq![' ']));
    let e = escape_pipes(join(words(v), seq![' ']));
    if e.len() > 120 {
        assert forall|j: int| 0 <= j < e.subrange(0, 120).len() implies e.subrange(0, 120)[j] != '\n' by {
            assert(e.subrange(0, 120)[j] == e[j]);
        }
    }
}

/// A table row opens with `|` and its only line break ends it.
#[verifier::rlimit(30)]
proof fn lemma_row_shape(s: Subproject, purpose: Seq<char>)
    ensures
        row_text(s, purpose).len() > 1,
        row_text(s, purpose)[0] == '|',
        row_text(s, purpose).last() == '\n',
        crate::text::one_line(row_text(s, purpose).drop_last()),
{
    reveal_strlit("| ");
    reveal_strlit(" | ");
    reveal_strlit(" |\n");
    let c1 = cell(s.path@);
    let c2 = cell(opt_text(s.manager));
    let c3 = cell(manifest_column(s));
    let c4 = cell(entry_column(s));
    let c5 = cell(join(s.commands.deep_view(), ", "@));
    let c6 = cell(purpose);
    lemma_cell_one_line(s.path@);
    lemma_cell_one_line(opt_text(s.manager));
    lemma_cell_one_line(manifest_column(s));
    lemma_cell_one_line(entry_column(s));
    lemma_cell_one_line(join(s.commands.deep_view(), ", "@));
    lemma_cell_one_line(purpose);
    let open = "| "@;
    let bar = " | "@;
    let close = seq![' ', '|'];
    assert(crate::text::one_line(open));
    assert(crate::text::one_line(bar));
    assert(crate::text::one_line(close));
    assert(" |\n"@ =~= close + seq!['\n']);
    let body = open + c1 + bar + c2 + bar + c3 + bar + c4 + bar + c5 + bar + c6 + close;
    lemma_one_line_concat(open, c1);
    lemma_one_line_concat(open + c1, bar);
    lemma_one_line_concat(open + c1 + bar, c2);
    lemma_one_line_concat(open + c1 + bar + c2, bar);
    lemma_one_line_concat(open + c1 + bar + c2 + bar, c3);
    lemma_one_line_concat(open + c1 + bar + c2 + bar + c3, bar);
    lemma_one_line_concat(open + c1 + bar + c2 + bar + c3 + bar, c4);
    lemma_one_line_concat(open + c1 + bar + c2 + bar + c3 + bar + c4, bar);
    lemma_one_line_concat(open + c1 + bar + c2 + bar + c3 + bar + c4 + bar, c5);
    lemma_one_line_concat(open + c1 + bar + c2 + bar + c3 + bar + c4 + bar + c5, bar);
    lemma_one_line_concat(open + c1 + bar + c2 + bar + c3 + bar + c4 + bar + c5 + bar, c6);
    lemma_one_line_concat(open + c1 + bar + c2 + bar + c3 + bar + c4 + bar + c5 + bar + c6, close);
    let row = row_text(s, purpose);
    assert(row =~= body + seq!['\n']);
    assert(row.drop_last() =~= body);
    assert(row[0] == open[0]);
}

/// The rows of the table: each line opens with `|`, the last ends with a
/// line break.
#[verifier::rlimit(30)]
proof fn lemma_rows_plain(subs: Seq<Subproject>, file: Option<&SubprojectsFile>)
    ensures
        rows_text(subs, file).len() > 0 ==> rows_text(subs, file)[0] == '|' && rows_text(subs, file).last() == '\n'
            && plain_after_breaks(rows_text(subs, file)),
    decreases subs.len(),
{
    if subs.len() > 0 {
        lemma_rows_plain(subs.drop_last(), file);
        let init = rows_text(subs.drop_last(), file);
        let row = row_text(subs.last(), purpose_of(file, subs.last().path@));
        lemma_row_shape(subs.last(), purpose_of(file, subs.last().path@));
        assert(plain_after_breaks(row)) by {
            assert forall|k: int| 0 < k < row.len() && row[k - 1] == '\n' implies #[trigger] crate::agent::line_head_plain(row, k) by {
                assert(row.drop_last()[k - 1] == row[k - 1]);
            }
        }
        assert(!crate::text::is_ws('|'));
        if init.len() > 0 {
            lemma_plain_concat(init, row);
            assert((init + row)[0] == init[0]);
        } else {
            assert(init + row =~= row);
        }
        assert((init + row).last() == row.last());
    }
}

/// Dropping final line breaks keeps the lines plain and leaves a text that
/// does not end with one.
proof fn lemma_strip_plain(s: Seq<char>)
    requires
        plain_after_breaks(s),
    ensures
        plain_after_breaks(strip_newlines_end(s)),
        strip_newlines_end(s).len() <= s.len(),
        forall|j: int| 0 <= j < strip_newlines_end(s).len() ==> strip_newlines_end(s)[j] == s[j],
        s.len() > 0 && s[0] != '\n' ==> strip_newlines_end(s).len() > 0,
    decreases s.len(),
{
    if s.len() > 0 && s.last() == '\n' {
        let d = s.drop_last();
        assert(plain_after_breaks(d)) by {
            assert forall|k: int| 0 < k < d.len() && d[k - 1] == '\n' implies #[trigger] crate::agent::line_head_plain(d, k) by {
                assert(s[k - 1] == d[k - 1]);
                assert(crate::agent::line_head_plain(s, k));
                assert(d[k] == s[k]);
                if k + 1 < d.len() {
                    assert(d[k + 1] == s[k + 1]);
                }
            }
        }
        lemma_strip_plain(d);
        assert(strip_newlines_end(s) == strip_newlines_end(d));
        assert forall|j: int| 0 <= j < strip_newlines_end(s).len() implies strip_newlines_end(s)[j] == s[j] by {
            assert(d[j] == s[j]);
        }
        if s.len() > 1 && s[0] != '\n' {
            assert(d[0] == s[0]);
        }
    }
}

/// The fixed texts of the routing block: each line after a line break opens
/// plainly.
proof fn lemma_routing_texts_plain()
    ensures
        plain_after_breaks(ROUTING_HEAD@),
        plain_after_breaks(ROUTING_COUNT_TAIL@),
        plain_after_breaks(ROUTING_RULES@),
        plain_after_breaks(TABLE_HEADER@),
        plain_after_breaks(TABLE_SEPARATOR@),
        ROUTING_HEAD@.last() != '\n',
        ROUTING_COUNT_TAIL@.len() > 0 && ROUTING_COUNT_TAIL@.last() == '\n',
        ROUTING_RULES@.len() > 0 && ROUTING_RULES@.last() == '\n',
        TABLE_HEADER@.len() > 1 && TABLE_HEADER@[0] == '|' && TABLE_HEADER@.last() == '\n',
        TABLE_SEPARATOR@.len() > 0 && TABLE_SEPARATOR@[0] == '|' && TABLE_SEPARATOR@.last() == '\n',
{
    reveal_strlit("| Path | Stack | Manifest | Entry context | Commands | Purpose |\n");
    reveal_strlit("| --- | --- | --- | --- | --- | --- |\n");
    reveal_strlit("\n## Subprojects — read exactly one\n\nThis repository has ");
    reveal_strlit(" subprojects. Do not explore the tree broadly.\n\n");
    reveal_strlit("\n\nRules:\n\n- Identify the subproject that owns your task's files and read only its entry context.\n- A file belongs to exactly one subproject; that subproject's `AGENTS.md` governs it.\n- Cross-cutting work: this block plus `.engineering/PROJECT_STATE.md`, nothing else.\n\n> Generated by `aicontext sync`. Do not edit inside this block.\n");
    assert(!crate::text::is_ws('|'));
    assert(!crate::text::is_ws('T'));
    assert(!crate::text::is_ws('R'));
    assert(!crate::text::is_ws('-'));
    assert(!crate::text::is_ws('>'));
}

/// The table of the routing block opens with `|`, and each of its lines
/// after a line break opens plainly.
proof fn lemma_table_plain(subs: Seq<Subproject>, file: Option<&SubprojectsFile>)
    ensures
        plain_after_breaks(subproject_table(subs, file)),
        subproject_table(subs, file).len() > 0,
        subproject_table(subs, file)[0] == '|',
{
    lemma_routing_texts_plain();
    assert(!crate::text::is_ws('|'));
    let header = TABLE_HEADER@;
    let sepr = TABLE_SEPARATOR@;
    let rows = rows_text(by_path(subs), file);
    lemma_rows_plain(by_path(subs), file);
    lemma_plain_concat(header, sepr);
    lemma_plain_concat(header + sepr, rows);
    let full = header + sepr + rows;
    assert(full[0] == '|');
    lemma_strip_plain(full);
}

/// The rendered routing block: every line opens plainly, so no level-1
/// heading sits inside it.
#[verifier::rlimit(40)]
#[verifier::spinoff_prover]
pub proof fn lemma_routing_block_plain(subs: Seq<Subproject>, file: Option<&SubprojectsFile>)
    ensures
        plain_lines(routing_block_text(subs, file)),
{
    lemma_agents_markers();
    lemma_routing_texts_plain();
    lemma_decimal_plain(subs.len());
    lemma_table_plain(subs, file);
    assert(!crate::text::is_ws('<'));
    let rs = ROUTING_START@;
    let re = ROUTING_END@;
    let h = ROUTING_HEAD@;
    let d = decimal(subs.len());
    let t = ROUTING_COUNT_TAIL@;
    let rules = ROUTING_RULES@;
    let tab = subproject_table(subs, file);
    assert(plain_after_breaks(rs));
    assert(plain_after_breaks(re));
    assert(plain_after_breaks(d));
    lemma_plain_concat(rs, h);
    lemma_plain_concat(rs + h, d);
    lemma_plain_concat(rs + h + d, t);
    lemma_plain_concat(rs + h + d + t, tab);
    lemma_routing_texts();
    assert(crate::agent::line_head_plain(rules, 0));
    lemma_plain_concat(rs + h + d + t + tab, rules);
    lemma_plain_concat(rs + h + d + t + tab + rules, re);
    let r = routing_block_text(subs, file);
    assert(r =~= rs + h + d + t + tab + rules + re);
    assert(r[0] == rs[0]);
    assert forall|k: int| 0 <= k < r.len() && (k == 0 || r[k - 1] == '\n') implies #[trigger] crate::agent::line_head_plain(r, k) by {
        if k == 0 {
            assert(r[1] == rs[1]);
        }
    }
}

// ---------------------------------------------------------------------------
// Whole runs of `init` and `sync`
// ---------------------------------------------------------------------------

/// The curated text the state file keeps: the file's curated block, else
/// the default skeleton, is already trimmed with one final line break and
/// holds no curated end marker.
proof fn lemma_kept_curated_normal(existing: Option<Seq<char>>)
    ensures
        ({
            let c = curated_or_default(match existing { Some(x) => curated_of(x), None => None });
            trim(c) + seq!['\n'] == c && !occurs_in(c, CUR_END@)
        }),
{
    lemma_marker_literals();
    lemma_marker_lit_ok(CUR_END@);
    let cur = match existing { Some(x) => curated_of(x), None => None };
    match cur {
        Some(k) => {
            let x = existing->0;
            assert(between(x, CUR_START@, CUR_END@) is Some);
            let s = find(x, CUR_START@)->0;
            let e = find(x, CUR_END@)->0;
            let b = x.subrange(s + CUR_START@.len(), e);
            assert(between(x, CUR_START@, CUR_END@) == Some(b));
            assert(k == trim(b) + seq!['\n']);
            lemma_find_from(x, CUR_START@, 0);
            lemma_find_from(x, CUR_END@, 0);
            assert(0 <= s && s + CUR_START@.len() <= e && e <= x.len());
            lemma_prefix_before_find(x, CUR_END@, e);
            lemma_no_occ_sub(x.subrange(0, e), s + CUR_START@.len(), e, CUR_END@);
            assert(x.subrange(0, e).subrange(s + CUR_START@.len(), e) =~= b);
            lemma_trim_sub(b);
            lemma_no_occ_sub(b, trim_start_len(b), trim_start_len(b) + trim(b).len(), CUR_END@);
            lemma_no_marker_with_newlines(trim(b), seq!['\n'], CUR_END@);
            lemma_trim_newline(trim(b));
        },
        None => {
            let d = DEFAULT_CURATED@;
            reveal_strlit("## Purpose\nTBD — describe what this project is for.\n\n## Current capabilities\n- TBD\n\n## Constraints\n- TBD\n");
            let t = d.drop_last();
            assert(d =~= t + seq!['\n']);
            assert(!crate::text::is_ws(t[0]));
            assert(!crate::text::is_ws(t.last()));
            lemma_trim_newline(t);
            lemma_no_occ_without_head(d, CUR_END@);
        },
    }
}

/// Rewriting the state file around a generated block keeps its curated
/// text: what is kept reads back unchanged.
proof fn lemma_state_write_keeps_curated(existing: Option<Seq<char>>, g: Seq<char>)
    requires
        !occurs_in(g, CUR_START@),
        !occurs_in(g, CUR_END@),
    ensures
        ({
            let c = curated_or_default(match existing { Some(x) => curated_of(x), None => None });
            curated_of(project_state_text(g, c)) == Some(c)
        }),
{
    lemma_kept_curated_normal(existing);
    let c = curated_or_default(match existing { Some(x) => curated_of(x), None => None });
    lemma_curated_once(g, c);
}

/// The new `.gitignore` text `init` writes, if any (see [`gitignore_update`]).
pub open spec fn gitignore_spec(existing: Option<Seq<char>>) -> Option<Seq<char>> {
    let ls = match existing { Some(t) => lines(t), None => seq![] };
    if ignore_lines(ls) == ls { None } else { Some(join(ignore_lines(ls), "\n"@) + "\n"@) }
}

pub open spec fn osv(o: Option<String>) -> Option<Seq<char>> {
    match o {
        Some(s) => Some(s@),
        None => None,
    }
}

/// What `init` finds in a repository root before writing.
pub struct InitFacts {
    /// The repository name and the requested profile (`auto` when none).
    pub name: String,
    pub profile: Option<String>,
    pub version_candidates: Vec<crate::scan::VersionCandidate>,
    /// The detected commands and subproject paths.
    pub commands: Vec<String>,
    pub subprojects: Vec<String>,
    pub manifest_exists: bool,
    pub consistency_exists: bool,
    pub patterns_exists: bool,
    pub subprojects_file_exists: bool,
    /// The current `PROJECT_STATE.md` and `.gitignore`, when readable.
    pub state_text: Option<String>,
    pub gitignore: Option<String>,
    /// The generated block of a fresh scan.
    pub generated: String,
}

/// What `init` writes: each seed file only where none exists, the state
/// file always (fresh generated block, curated block kept), `.gitignore`
/// only when an entry is missing.
pub struct InitWrites {
    pub manifest: Option<String>,
    pub consistency: Option<String>,
    pub patterns: Option<String>,
    pub subprojects: Option<String>,
    pub subprojects_note: String,
    pub state: String,
    pub gitignore: Option<String>,
}

pub type InitView = (Option<Seq<char>>, Option<Seq<char>>, Option<Seq<char>>, Option<Seq<char>>, Seq<char>, Seq<char>, Option<Seq<char>>);

pub open spec fn init_writes_view(w: InitWrites) -> InitView {
    (osv(w.manifest), osv(w.consistency), osv(w.patterns), osv(w.subprojects), w.subprojects_note@, w.state@, osv(w.gitignore))
}

pub open spec fn init_spec(f: InitFacts) -> InitView {
    let profile = match f.profile { Some(p) => p@, None => "auto"@ };
    let seed = seed_subprojects_spec(f.subprojects_file_exists, f.subprojects.deep_view());
    (
        if f.manifest_exists { None } else {
            Some(crate::config::minimal_toml_text(f.name@, profile, crate::scan::seed_version_source_spec(f.version_candidates@)))
        },
        if f.consistency_exists { None } else { Some(crate::config::minimal_consistency_text(f.commands.deep_view())) },
        if f.patterns_exists { None } else { Some(PATTERNS_PLACEHOLDER@) },
        seed.0,
        seed.1,
        project_state_text(f.generated@, curated_or_default(match f.state_text { Some(x) => curated_of(x@), None => None })),
        gitignore_spec(osv(f.gitignore)),
    )
}

/// Everything `init` decides to write for one root (see [`init_spec`]).
pub fn init_writes(f: &InitFacts) -> (r: InitWrites)
    ensures
        init_writes_view(r) == init_spec(*f),
{
    let profile = match &f.profile {
        Some(p) => p.clone(),
        None => string_from("auto"),
    };
    let manifest = if f.manifest_exists {
        None
    } else {
        let source = crate::scan::seed_version_source(&f.version_candidates);
        Some(crate::config::minimal_toml(f.name.as_str(), profile.as_str(), source.as_str()))
    };
    let consistency = if f.consistency_exists { None } else { Some(crate::config::minimal_consistency(&f.commands)) };
    let patterns = if f.patterns_exists { None } else { Some(string_from(PATTERNS_PLACEHOLDER)) };
    let (subprojects, subprojects_note) = seed_subprojects(f.subprojects_file_exists, &f.subprojects);
    let state = init_state_text(match &f.state_text {
        Some(x) => Some(x.as_str()),
        None => None,
    }, f.generated.as_str());
    let gitignore = gitignore_update(match &f.gitignore {
        Some(x) => Some(x.as_str()),
        None => None,
    });
    proof {
        reveal_strlit("\n");
    }
    InitWrites { manifest, consistency, patterns, subprojects, subprojects_note, state, gitignore }
}

/// `init` is idempotent: a second run on what the first left (the seed
/// files and `.gitignore` as written, the state file as written, the same
/// scan) writes no seed file and no `.gitignore`, never overwrites an
/// existing manifest, consistency file, patterns file or subproject
/// manifest, and writes `PROJECT_STATE.md` byte-identical, curated block
/// included. Holds when the generated block holds no state marker.
pub proof fn lemma_init_idempotent(f: InitFacts, f2: InitFacts)
    requires
        !occurs_in(f.generated@, GEN_END@),
        !occurs_in(f.generated@, CUR_START@),
        !occurs_in(f.generated@, CUR_END@),
        f2.generated@ == f.generated@,
        f2.manifest_exists,
        f2.consistency_exists,
        f2.patterns_exists,
        f2.subprojects_file_exists == (f.subprojects_file_exists || init_spec(f).3 is Some),
        f2.subprojects.deep_view() == f.subprojects.deep_view(),
        osv(f2.state_text) == Some(init_spec(f).5),
        osv(f2.gitignore) == match init_spec(f).6 { Some(t) => Some(t), None => osv(f.gitignore) },
    ensures
        init_spec(f2).0 is None,
        init_spec(f2).1 is None,
        init_spec(f2).2 is None,
        init_spec(f2).3 is None,
        init_spec(f2).5 == init_spec(f).5,
        init_spec(f2).6 is None,
{
    let existing = match f.state_text { Some(x) => curated_of(x@), None => None };
    let c = curated_or_default(existing);
    lemma_state_write_keeps_curated(match f.state_text { Some(x) => Some(x@), None => None }, f.generated@);
    assert(existing == match osv(f.state_text) { Some(x) => curated_of(x), None => None });
    lemma_gitignore_converges(osv(f.gitignore));
    reveal_strlit("\n");
}

/// What `sync` leaves in `PROJECT_STATE.md`: re-rendered around the fresh
/// block when it drifted, as it was otherwise.
pub open spec fn sync_state_after(existing: Seq<char>, fresh: Seq<char>) -> Seq<char> {
    if drift_spec(existing, fresh) {
        project_state_text(fresh, curated_or_default(curated_of(existing)))
    } else {
        existing
    }
}

/// One `sync` converges: on the same scan, afterwards `sync --check` finds
/// no drift (exit 0) and writes nothing, a second `sync` writes neither the
/// state file nor `AGENTS.md`, and the curated text is kept. `AGENTS.md`
/// here holds both marked blocks apart around user text, as `init` leaves
/// it. Holds when the generated block holds no state marker and the
/// subproject table no routing end or context start marker.
pub proof fn lemma_sync_converges(
    existing: Seq<char>,
    fresh: Seq<char>,
    a: Seq<char>,
    b: Seq<char>,
    c: Seq<char>,
    old_context: Seq<char>,
    old_routing: Seq<char>,
    routing_first: bool,
    subs: Seq<Subproject>,
    file: Option<&SubprojectsFile>,
)
    requires
        !occurs_in(fresh, GEN_END@),
        !occurs_in(fresh, CUR_START@),
        !occurs_in(fresh, CUR_END@),
        !occurs_in(subproject_table(subs, file), ROUTING_END@),
        !occurs_in(subproject_table(subs, file), CONTEXT_START@),
        block_ok(old_context, CONTEXT_START@, CONTEXT_END@),
        !occurs_in(old_context, ROUTING_START@),
        block_ok(old_routing, ROUTING_START@, ROUTING_END@),
        !occurs_in(old_routing, CONTEXT_START@),
        !occurs_in(a, CONTEXT_START@),
        !occurs_in(a, ROUTING_START@),
        !occurs_in(b, CONTEXT_START@),
        !occurs_in(b, ROUTING_START@),
        !occurs_in(c, CONTEXT_START@),
        !occurs_in(c, ROUTING_START@),
    ensures
        ({
            let after = sync_state_after(existing, fresh);
            let routing = routing_block_text(subs, file);
            let agents = two_blocks(a, old_context, b, old_routing, c, routing_first);
            let agents_after = match routing_update(Some(agents), subs.len(), routing, RoutingMode::Sync).0 {
                Some(t) => t,
                None => agents,
            };
            &&& !drift_spec(after, fresh)
            &&& (if drift_spec(after, fresh) { 1i32 } else { 0i32 }) == 0
            &&& routing_update(Some(agents_after), subs.len(), routing, RoutingMode::Report).0 is None
            &&& routing_update(Some(agents_after), subs.len(), routing, RoutingMode::Sync).0 is None
            &&& (curated_of(existing) is Some ==> curated_of(after) == curated_of(existing))
        }),
{
    if drift_spec(existing, fresh) {
        lemma_state_converges(curated_or_default(curated_of(existing)), fresh);
        lemma_state_write_keeps_curated(Some(existing), fresh);
        lemma_kept_curated_normal(Some(existing));
    }
    lemma_routing_block_marked(subs, file);
    lemma_marked_file_converges(a, b, c, old_context, old_routing, routing_block_text(subs, file), routing_first, subs.len(),
        RoutingMode::Sync, RoutingMode::Sync);
}

} // verus!
