use vstd::prelude::*;

verus! {

// ---------------------------------------------------------------------------
// Specification vocabulary over character sequences.
// ---------------------------------------------------------------------------

/// `p` occurs in `s` starting at index `i`.
pub open spec fn occurs_at(s: Seq<char>, p: Seq<char>, i: int) -> bool {
    0 <= i && i + p.len() <= s.len() && s.subrange(i, i + p.len()) == p
}

/// First index `>= i` where `p` occurs in `s`.
pub open spec fn find_from(s: Seq<char>, p: Seq<char>, i: int) -> Option<int>
    decreases s.len() + 1 - i,
{
    if i + p.len() > s.len() {
        None
    } else if occurs_at(s, p, i) {
        Some(i)
    } else {
        find_from(s, p, i + 1)
    }
}

/// First index where `p` occurs in `s`.
pub open spec fn find(s: Seq<char>, p: Seq<char>) -> Option<int> {
    find_from(s, p, 0)
}

pub open spec fn contains(s: Seq<char>, p: Seq<char>) -> bool {
    find(s, p) is Some
}

pub open spec fn starts_with(s: Seq<char>, p: Seq<char>) -> bool {
    p.len() <= s.len() && s.subrange(0, p.len() as int) == p
}

pub open spec fn ends_with(s: Seq<char>, p: Seq<char>) -> bool {
    p.len() <= s.len() && s.subrange(s.len() - p.len(), s.len() as int) == p
}

/// Unicode `White_Space`, the property behind `char::is_whitespace`.
pub open spec fn is_ws(c: char) -> bool {
    let u = c as u32;
    (0x9 <= u && u <= 0xD) || u == 0x20 || u == 0x85 || u == 0xA0 || u == 0x1680 || (0x2000 <= u
        && u <= 0x200A) || u == 0x2028 || u == 0x2029 || u == 0x202F || u == 0x205F || u == 0x3000
}

pub open spec fn trim_start(s: Seq<char>) -> Seq<char>
    decreases s.len(),
{
    if s.len() > 0 && is_ws(s[0]) {
        trim_start(s.drop_first())
    } else {
        s
    }
}

pub open spec fn trim_end(s: Seq<char>) -> Seq<char>
    decreases s.len(),
{
    if s.len() > 0 && is_ws(s.last()) {
        trim_end(s.drop_last())
    } else {
        s
    }
}

pub open spec fn trim(s: Seq<char>) -> Seq<char> {
    trim_end(trim_start(s))
}

/// A line without its terminating `\n`, also losing a `\r` right before it.
pub open spec fn strip_cr(line: Seq<char>) -> Seq<char> {
    if line.len() > 0 && line.last() == '\r' {
        line.drop_last()
    } else {
        line
    }
}

/// `str::lines`: pieces between `\n`, a `\r` before `\n` dropped, no piece
/// after a final `\n`.
pub open spec fn lines(s: Seq<char>) -> Seq<Seq<char>>
    decreases s.len(),
{
    if s.len() == 0 {
        seq![]
    } else {
        match find(s, seq!['\n']) {
            Some(k) => if 0 <= k < s.len() {
                seq![strip_cr(s.subrange(0, k))] + lines(s.subrange(k + 1, s.len() as int))
            } else {
                seq![s]
            },
            None => seq![s],
        }
    }
}

/// Pieces joined with `sep` between consecutive ones.
pub open spec fn join(parts: Seq<Seq<char>>, sep: Seq<char>) -> Seq<char>
    decreases parts.len(),
{
    if parts.len() == 0 {
        seq![]
    } else if parts.len() == 1 {
        parts[0]
    } else {
        join(parts.drop_last(), sep) + sep + parts.last()
    }
}

pub open spec fn digit_char(d: nat) -> char {
    ((48 + d) as u32) as char
}

/// Decimal rendering of a natural number.
pub open spec fn decimal(n: nat) -> Seq<char>
    decreases n,
{
    if n < 10 {
        seq![digit_char(n)]
    } else {
        decimal(n / 10).push(digit_char(n % 10))
    }
}

/// Length of the leading run of non-whitespace characters.
pub open spec fn word_len(s: Seq<char>) -> nat
    decreases s.len(),
{
    if s.len() == 0 || is_ws(s[0]) {
        0
    } else {
        1 + word_len(s.drop_first())
    }
}

pub proof fn lemma_word_len_bound(s: Seq<char>)
    ensures
        word_len(s) <= s.len(),
    decreases s.len(),
{
    if s.len() > 0 && !is_ws(s[0]) {
        lemma_word_len_bound(s.drop_first());
    }
}

/// `str::split_whitespace`: the maximal whitespace-free pieces.
pub open spec fn words(s: Seq<char>) -> Seq<Seq<char>>
    decreases s.len(),
{
    if s.len() == 0 {
        seq![]
    } else if is_ws(s[0]) {
        words(s.drop_first())
    } else {
        let k = word_len(s);
        if 0 < k <= s.len() {
            seq![s.subrange(0, k as int)] + words(s.subrange(k as int, s.len() as int))
        } else {
            seq![s]
        }
    }
}

/// Every `|` preceded by a backslash.
pub open spec fn escape_pipes(s: Seq<char>) -> Seq<char>
    decreases s.len(),
{
    if s.len() == 0 {
        seq![]
    } else {
        escape_pipes(s.drop_last()) + if s.last() == '|' {
            seq!['\\', '|']
        } else {
            seq![s.last()]
        }
    }
}

/// The first `n` characters (all of them when there are fewer).
pub open spec fn take_chars(s: Seq<char>, n: nat) -> Seq<char> {
    if s.len() <= n {
        s
    } else {
        s.subrange(0, n as int)
    }
}

/// No proper suffix of `p` is also a prefix of it, so two occurrences of `p`
/// never overlap.
pub open spec fn no_self_overlap(p: Seq<char>) -> bool {
    forall|k: int| 0 < k < p.len() ==> #[trigger] p.subrange(k, p.len() as int) != p.subrange(0, p.len() - k)
}

pub open spec fn occurs_in(s: Seq<char>, p: Seq<char>) -> bool {
    exists|j: int| occurs_at(s, p, j)
}

// ---------------------------------------------------------------------------
// Lemmas.
// ---------------------------------------------------------------------------

/// What `find_from` returns is an occurrence, and no earlier index from `i` is.
pub proof fn lemma_find_from(s: Seq<char>, p: Seq<char>, i: int)
    ensures
        match find_from(s, p, i) {
            Some(k) => i <= k && occurs_at(s, p, k) && forall|j: int|
                i <= j < k ==> !occurs_at(s, p, j),
            None => forall|j: int| i <= j ==> !occurs_at(s, p, j),
        },
    decreases s.len() + 1 - i,
{
    if i + p.len() > s.len() {
    } else if occurs_at(s, p, i) {
    } else {
        lemma_find_from(s, p, i + 1);
    }
}


/// An occurrence at `k` with none in `[i, k)` is what `find_from` finds.
pub proof fn lemma_find_from_is(s: Seq<char>, p: Seq<char>, i: int, k: int)
    requires
        i <= k,
        occurs_at(s, p, k),
        forall|j: int| i <= j < k ==> !occurs_at(s, p, j),
    ensures
        find_from(s, p, i) == Some(k),
    decreases k - i,
{
    if i < k {
        assert(!occurs_at(s, p, i));
        lemma_find_from_is(s, p, i + 1, k);
    }
}

/// With no occurrence from `i` on, `find_from` finds nothing.
pub proof fn lemma_find_from_none(s: Seq<char>, p: Seq<char>, i: int)
    requires
        forall|j: int| i <= j ==> !occurs_at(s, p, j),
    ensures
        find_from(s, p, i) is None,
    decreases s.len() + 1 - i,
{
    if i + p.len() <= s.len() {
        assert(!occurs_at(s, p, i));
        lemma_find_from_none(s, p, i + 1);
    }
}

/// The first character of `m` appears nowhere else in it.
pub open spec fn head_unique(m: Seq<char>) -> bool {
    m.len() > 0 && forall|i: int| 0 < i < m.len() ==> #[trigger] m[i] != m[0]
}

/// A sequence whose first character never recurs cannot overlap itself.
pub proof fn lemma_head_unique_no_overlap(p: Seq<char>)
    requires
        head_unique(p),
    ensures
        no_self_overlap(p),
{
    assert forall|k: int| 0 < k < p.len() implies #[trigger] p.subrange(k, p.len() as int) != p.subrange(0, p.len() - k) by {
        assert(p.subrange(k, p.len() as int)[0] == p[k]);
        assert(p.subrange(0, p.len() - k)[0] == p[0]);
    }
}

/// Two texts without `m` stay without it when joined, if the second opens
/// with `m`'s first character and that character opens `m` only.
pub proof fn lemma_no_occ_concat_head(a: Seq<char>, b: Seq<char>, m: Seq<char>)
    requires
        head_unique(m),
        !occurs_in(a, m),
        !occurs_in(b, m),
        b.len() > 0,
        b[0] == m[0],
    ensures
        !occurs_in(a + b, m),
{
    if occurs_in(a + b, m) {
        let j = choose|j: int| occurs_at(a + b, m, j);
        let l = m.len() as int;
        if j + l <= a.len() {
            assert(a.subrange(j, j + l) =~= (a + b).subrange(j, j + l));
            assert(occurs_at(a, m, j));
        } else if j >= a.len() {
            assert(b.subrange(j - a.len(), j - a.len() + l) =~= (a + b).subrange(j, j + l));
            assert(occurs_at(b, m, j - a.len()));
        } else {
            let k = a.len() - j;
            assert((a + b).subrange(j, j + l)[k] == (a + b)[a.len() as int]);
            assert(m[k] == m[0]);
        }
    }
}

/// Distinct markers sharing a unique head: `y` does not occur in `x` when
/// they differ at some index `d` inside both.
pub proof fn lemma_distinct_markers(x: Seq<char>, y: Seq<char>, d: int)
    requires
        head_unique(x),
        y.len() > 0,
        x[0] == y[0],
        0 <= d < x.len(),
        d < y.len(),
        x[d] != y[d],
    ensures
        !occurs_in(x, y),
{
    if occurs_in(x, y) {
        let j = choose|j: int| occurs_at(x, y, j);
        lemma_occurs_head(x, y, j);
        if j > 0 {
            assert(x[j] == x[0]);
        }
        assert(x.subrange(0, y.len() as int)[d] == x[d]);
    }
}

/// Number of leading whitespace characters.
pub open spec fn trim_start_len(s: Seq<char>) -> int
    decreases s.len(),
{
    if s.len() > 0 && is_ws(s[0]) {
        1 + trim_start_len(s.drop_first())
    } else {
        0
    }
}

/// Number of trailing whitespace characters.
pub open spec fn trim_end_len(s: Seq<char>) -> int
    decreases s.len(),
{
    if s.len() > 0 && is_ws(s.last()) {
        1 + trim_end_len(s.drop_last())
    } else {
        0
    }
}

/// Empty, or neither opening nor closing with whitespace.
pub open spec fn is_trimmed(t: Seq<char>) -> bool {
    t.len() == 0 || (!is_ws(t[0]) && !is_ws(t.last()))
}

proof fn lemma_trim_start_sub(s: Seq<char>)
    ensures
        0 <= trim_start_len(s) <= s.len(),
        trim_start(s) == s.subrange(trim_start_len(s), s.len() as int),
        trim_start(s).len() > 0 ==> !is_ws(trim_start(s)[0]),
    decreases s.len(),
{
    if s.len() > 0 && is_ws(s[0]) {
        lemma_trim_start_sub(s.drop_first());
        assert(s.drop_first().subrange(trim_start_len(s.drop_first()), s.drop_first().len() as int) =~= s.subrange(trim_start_len(s), s.len() as int));
    } else {
        assert(s.subrange(0, s.len() as int) =~= s);
    }
}

proof fn lemma_trim_end_sub(s: Seq<char>)
    ensures
        0 <= trim_end_len(s) <= s.len(),
        trim_end(s) == s.subrange(0, s.len() - trim_end_len(s)),
        trim_end(s).len() > 0 ==> !is_ws(trim_end(s).last()),
        s.len() > 0 && !is_ws(s[0]) ==> trim_end(s).len() > 0 && trim_end(s)[0] == s[0],
    decreases s.len(),
{
    if s.len() > 0 && is_ws(s.last()) {
        lemma_trim_end_sub(s.drop_last());
        assert(s.drop_last().subrange(0, s.drop_last().len() - trim_end_len(s.drop_last())) =~= s.subrange(0, s.len() - trim_end_len(s)));
        if s.len() > 1 && !is_ws(s[0]) {
            assert(s.drop_last()[0] == s[0]);
        }
    } else {
        assert(s.subrange(0, s.len() as int) =~= s);
    }
}

/// `trim(c)` is a trimmed piece of `c` starting at `trim_start_len(c)`.
pub proof fn lemma_trim_sub(c: Seq<char>)
    ensures
        0 <= trim_start_len(c),
        trim_start_len(c) + trim(c).len() <= c.len(),
        trim(c) == c.subrange(trim_start_len(c), trim_start_len(c) + trim(c).len()),
        is_trimmed(trim(c)),
{
    lemma_trim_start_sub(c);
    let ts = trim_start(c);
    lemma_trim_end_sub(ts);
    let a = trim_start_len(c);
    assert(ts.subrange(0, ts.len() - trim_end_len(ts)) =~= c.subrange(a, a + trim(c).len()));
}

/// A trimmed text with a final newline trims back to itself.
pub proof fn lemma_trim_newline(t: Seq<char>)
    requires
        is_trimmed(t),
    ensures
        trim(t + seq!['\n']) == t,
{
    let u = t + seq!['\n'];
    assert(is_ws('\n'));
    if t.len() == 0 {
        assert(u.drop_first() =~= Seq::<char>::empty());
        assert(trim_start(u) == trim_start(u.drop_first()));
    } else {
        assert(u[0] == t[0]);
        assert(trim_start(u) == u);
        assert(u.drop_last() =~= t);
        assert(trim_end(u) == trim_end(t));
    }
}

/// A piece of a text without `m` lacks `m` too.
pub proof fn lemma_no_occ_sub(c: Seq<char>, a: int, b: int, m: Seq<char>)
    requires
        0 <= a <= b <= c.len(),
        !occurs_in(c, m),
    ensures
        !occurs_in(c.subrange(a, b), m),
{
    let s = c.subrange(a, b);
    if occurs_in(s, m) {
        let j = choose|j: int| occurs_at(s, m, j);
        assert(c.subrange(a + j, a + j + m.len()) =~= s.subrange(j, j + m.len()));
        assert(occurs_at(c, m, a + j));
    }
}

/// An occurrence starts with the pattern's first character.
pub proof fn lemma_occurs_head(s: Seq<char>, p: Seq<char>, j: int)
    requires
        occurs_at(s, p, j),
        p.len() > 0,
    ensures
        s[j] == p[0],
{
    assert(s.subrange(j, j + p.len())[0] == s[j]);
}

/// Two texts without `m` stay without it when joined, if the first one's
/// last `m.len() - 1` characters never hold `m`'s first character.
pub proof fn lemma_no_occ_concat(a: Seq<char>, b: Seq<char>, m: Seq<char>)
    requires
        m.len() > 0,
        !occurs_in(a, m),
        !occurs_in(b, m),
        forall|i: int| 0 <= i && a.len() - m.len() < i < a.len() ==> a[i] != m[0],
    ensures
        !occurs_in(a + b, m),
{
    if occurs_in(a + b, m) {
        let j = choose|j: int| occurs_at(a + b, m, j);
        let l = m.len() as int;
        if j + l <= a.len() {
            assert(a.subrange(j, j + l) =~= (a + b).subrange(j, j + l));
            assert(occurs_at(a, m, j));
        } else if j >= a.len() {
            assert(b.subrange(j - a.len(), j - a.len() + l) =~= (a + b).subrange(j, j + l));
            assert(occurs_at(b, m, j - a.len()));
        } else {
            lemma_occurs_head(a + b, m, j);
        }
    }
}

/// The first occurrence of a self-overlap-free `m` in `pre + m + post`, when
/// `pre` lacks `m`, is right after `pre`.
pub proof fn lemma_find_after(pre: Seq<char>, m: Seq<char>, post: Seq<char>)
    requires
        m.len() > 0,
        no_self_overlap(m),
        !occurs_in(pre, m),
    ensures
        find(pre + m + post, m) == Some(pre.len() as int),
{
    let out = pre + m + post;
    let p = pre.len() as int;
    let l = m.len() as int;
    assert(out.subrange(p, p + l) =~= m);
    assert forall|j: int| 0 <= j < p implies !occurs_at(out, m, j) by {
        if occurs_at(out, m, j) {
            if j + l <= p {
                assert(pre.subrange(j, j + l) =~= out.subrange(j, j + l));
                assert(occurs_at(pre, m, j));
            } else {
                let k = p - j;
                assert(m.subrange(k, l) =~= out.subrange(p, j + l));
                assert(out.subrange(p, j + l) =~= m.subrange(0, l - k));
                assert(m.subrange(k, l) == m.subrange(0, l - k));
            }
        }
    }
    lemma_find_from_is(out, m, 0, p);
}

/// A text whose characters all differ from `m`'s first one lacks `m`.
pub proof fn lemma_no_occ_without_head(a: Seq<char>, m: Seq<char>)
    requires
        m.len() > 0,
        forall|i: int| 0 <= i < a.len() ==> a[i] != m[0],
    ensures
        !occurs_in(a, m),
{
    if occurs_in(a, m) {
        let j = choose|j: int| occurs_at(a, m, j);
        lemma_occurs_head(a, m, j);
    }
}

/// Searching a suffix is searching the whole text from where it starts.
pub proof fn lemma_find_shift(v: Seq<char>, p: Seq<char>, pos: int)
    requires
        0 <= pos <= v.len(),
    ensures
        find(v.subrange(pos, v.len() as int), p) == match find_from(v, p, pos) {
            Some(k) => Some(k - pos),
            None => None,
        },
{
    let sub = v.subrange(pos, v.len() as int);
    assert forall|j: int| 0 <= j implies (#[trigger] occurs_at(sub, p, j) <==> occurs_at(v, p, j + pos)) by {
        if 0 <= j && j + p.len() <= sub.len() {
            assert(sub.subrange(j, j + p.len()) =~= v.subrange(j + pos, j + pos + p.len()));
        }
    }
    lemma_find_from(v, p, pos);
    match find_from(v, p, pos) {
        Some(k) => {
            assert(occurs_at(sub, p, k - pos));
            assert forall|j: int| 0 <= j < k - pos implies !occurs_at(sub, p, j) by {
                assert(!occurs_at(v, p, j + pos));
            }
            lemma_find_from_is(sub, p, 0, k - pos);
        },
        None => {
            assert forall|j: int| 0 <= j implies !occurs_at(sub, p, j) by {
                assert(!occurs_at(v, p, j + pos));
            }
            lemma_find_from_none(sub, p, 0);
        },
    }
}

// ---------------------------------------------------------------------------
// Executable primitives.
// ---------------------------------------------------------------------------

/// Appends one character to a string (std `String::push`).
#[verifier::external_body]
pub(crate) fn push_char(s: &mut String, c: char)
    ensures
        final(s)@ == old(s)@.push(c),
{
    s.push(c);
}

/// Appends a string slice.
pub fn push_str(s: &mut String, t: &str)
    ensures
        final(s)@ == old(s)@ + t@,
{
    s.append(t);
}

/// Appends `v[from..to]`.
pub fn push_range(s: &mut String, v: &Vec<char>, from: usize, to: usize)
    requires
        from <= to <= v.len(),
    ensures
        final(s)@ == old(s)@ + v@.subrange(from as int, to as int),
{
    let mut i = from;
    while i < to
        invariant
            from <= i <= to <= v.len(),
            s@ == old(s)@ + v@.subrange(from as int, i as int),
        decreases to - i,
    {
        push_char(s, v[i]);
        i += 1;
        assert(v@.subrange(from as int, i as int) == v@.subrange(from as int, (i - 1) as int).push(
            v@[i - 1],
        ));
    }
}

/// Appends all of `v`.
pub fn push_all(s: &mut String, v: &Vec<char>)
    ensures
        final(s)@ == old(s)@ + v@,
{
    push_range(s, v, 0, v.len());
    assert(v@.subrange(0, v@.len() as int) == v@);
}

/// The characters of `s`, in order.
pub fn chars_of(s: &str) -> (v: Vec<char>)
    ensures
        v@ == s@,
{
    let mut v: Vec<char> = Vec::new();
    for c in it: s.chars()
        invariant
            v@ == it.seq().take(it.index() as int),
            it.seq() == s@,
    {
        v.push(c);
    }
    v
}

/// A string holding exactly `v[from..to]`.
pub fn string_of_range(v: &Vec<char>, from: usize, to: usize) -> (r: String)
    requires
        from <= to <= v.len(),
    ensures
        r@ == v@.subrange(from as int, to as int),
{
    let mut r = String::new();
    push_range(&mut r, v, from, to);
    r
}

/// A string holding exactly `v`.
pub fn string_of(v: &Vec<char>) -> (r: String)
    ensures
        r@ == v@,
{
    let mut r = String::new();
    push_all(&mut r, v);
    r
}

/// Whether `p` occurs in `s` at `i`.
pub fn occurs_at_exec(s: &Vec<char>, p: &Vec<char>, i: usize) -> (b: bool)
    ensures
        b == occurs_at(s@, p@, i as int),
{
    if i > s.len() || p.len() > s.len() - i {
        return false;
    }
    let mut k: usize = 0;
    while k < p.len()
        invariant
            i + p.len() <= s.len(),
            k <= p.len(),
            forall|m: int| 0 <= m < k ==> s@[i + m] == p@[m],
        decreases p.len() - k,
    {
        if s[i + k] != p[k] {
            assert(s@.subrange(i as int, i + p.len())[k as int] != p@[k as int]);
            return false;
        }
        k += 1;
    }
    assert(s@.subrange(i as int, i + p.len()) == p@);
    true
}

/// First occurrence of `p` in `s` at or after `from`.
pub fn find_exec(s: &Vec<char>, p: &Vec<char>, from: usize) -> (r: Option<usize>)
    ensures
        match r {
            Some(k) => find_from(s@, p@, from as int) == Some(k as int),
            None => find_from(s@, p@, from as int) is None,
        },
{
    let mut i = from;
    if i > s.len() || p.len() > s.len() - i {
        proof {
            lemma_find_from_none(s@, p@, from as int);
        }
        return None;
    }
    let last = s.len() - p.len();
    while i <= last
        invariant
            from <= i <= last + 1,
            last == s.len() - p.len(),
            forall|j: int| from <= j < i ==> !occurs_at(s@, p@, j),
        decreases last + 1 - i,
    {
        if occurs_at_exec(s, p, i) {
            proof {
                lemma_find_from_is(s@, p@, from as int, i as int);
            }
            return Some(i);
        }
        if i == last {
            proof {
                lemma_find_from_none(s@, p@, from as int);
            }
            return None;
        }
        i += 1;
    }
    proof {
        lemma_find_from_none(s@, p@, from as int);
    }
    None
}

/// `char::is_whitespace`.
pub fn is_ws_exec(c: char) -> (b: bool)
    ensures
        b == is_ws(c),
{
    let u = c as u32;
    (0x9 <= u && u <= 0xD) || u == 0x20 || u == 0x85 || u == 0xA0 || u == 0x1680 || (0x2000 <= u
        && u <= 0x200A) || u == 0x2028 || u == 0x2029 || u == 0x202F || u == 0x205F || u == 0x3000
}

/// Bounds `[a, b)` of `trim(v[from..to])` inside `v`; `[a, to)` is `trim_start`.
pub fn trim_range(v: &Vec<char>, from: usize, to: usize) -> (r: (usize, usize))
    requires
        from <= to <= v.len(),
    ensures
        from <= r.0 <= r.1 <= to,
        v@.subrange(r.0 as int, r.1 as int) == trim(v@.subrange(from as int, to as int)),
        v@.subrange(r.0 as int, to as int) == trim_start(v@.subrange(from as int, to as int)),
{
    let ghost w = v@.subrange(from as int, to as int);
    let mut a: usize = from;
    while a < to && is_ws_exec(v[a])
        invariant
            from <= a <= to <= v.len(),
            w == v@.subrange(from as int, to as int),
            trim_start(w) == trim_start(v@.subrange(a as int, to as int)),
        decreases to - a,
    {
        assert(v@.subrange(a as int, to as int).drop_first() == v@.subrange(a + 1, to as int));
        a += 1;
    }
    let ghost ts = v@.subrange(a as int, to as int);
    assert(trim_start(ts) == ts);
    let mut b: usize = to;
    while b > a && is_ws_exec(v[b - 1])
        invariant
            from <= a <= b <= to <= v.len(),
            ts == v@.subrange(a as int, to as int),
            trim_end(ts) == trim_end(v@.subrange(a as int, b as int)),
        decreases b,
    {
        assert(v@.subrange(a as int, b as int).drop_last() == v@.subrange(a as int, b - 1));
        b -= 1;
    }
    (a, b)
}

/// Bounds `[a, b)` of `trim(v)` inside `v`.
pub fn trim_bounds(v: &Vec<char>) -> (r: (usize, usize))
    ensures
        r.0 <= r.1 <= v.len(),
        v@.subrange(r.0 as int, r.1 as int) == trim(v@),
        v@.subrange(r.0 as int, v.len() as int) == trim_start(v@),
{
    assert(v@.subrange(0, v.len() as int) == v@);
    trim_range(v, 0, v.len())
}

/// A string holding `trim(s)`.
pub fn trim_string(s: &str) -> (r: String)
    ensures
        r@ == trim(s@),
{
    let v = chars_of(s);
    let (a, b) = trim_bounds(&v);
    string_of_range(&v, a, b)
}

proof fn lemma_word_len_is(s: Seq<char>, m: int)
    requires
        0 <= m <= s.len(),
        forall|k: int| 0 <= k < m ==> !is_ws(#[trigger] s[k]),
        m == s.len() || is_ws(s[m]),
    ensures
        word_len(s) == m,
    decreases m,
{
    if m > 0 {
        assert forall|k: int| 0 <= k < m - 1 implies !is_ws(#[trigger] s.drop_first()[k]) by {
            assert(s.drop_first()[k] == s[k + 1]);
        }
        if m < s.len() {
            assert(s.drop_first()[m - 1] == s[m]);
        }
        lemma_word_len_is(s.drop_first(), m - 1);
    }
}

proof fn lemma_join_push(parts: Seq<Seq<char>>, w: Seq<char>, sep: Seq<char>)
    ensures
        join(parts.push(w), sep) == if parts.len() == 0 { w } else { join(parts, sep) + sep + w },
{
    assert(parts.push(w).drop_last() =~= parts);
}

/// `split_whitespace` pieces of `v` joined by single spaces.
pub fn collapse_ws(v: &Vec<char>) -> (r: String)
    ensures
        r@ == join(words(v@), seq![' ']),
{
    let mut out = String::new();
    let ghost mut done: Seq<Seq<char>> = seq![];
    let mut any = false;
    let mut i: usize = 0;
    assert(v@.subrange(0, v.len() as int) =~= v@);
    while i < v.len()
        invariant
            i <= v.len(),
            any == (done.len() > 0),
            words(v@) == done + words(v@.subrange(i as int, v.len() as int)),
            out@ == join(done, seq![' ']),
        decreases v.len() - i,
    {
        let ghost sub = v@.subrange(i as int, v.len() as int);
        if is_ws_exec(v[i]) {
            assert(sub.drop_first() =~= v@.subrange(i + 1, v.len() as int));
            i += 1;
        } else {
            let mut j = i;
            while j < v.len() && !is_ws_exec(v[j])
                invariant
                    i <= j <= v.len(),
                    forall|k: int| i <= k < j ==> !is_ws(#[trigger] v@[k]),
                decreases v.len() - j,
            {
                j += 1;
            }
            proof {
                assert forall|k: int| 0 <= k < j - i implies !is_ws(#[trigger] sub[k]) by {
                    assert(sub[k] == v@[i + k]);
                }
                if j < v.len() {
                    assert(sub[j - i] == v@[j as int]);
                }
                lemma_word_len_is(sub, j - i);
                assert(sub.subrange(0, j - i) =~= v@.subrange(i as int, j as int));
                assert(sub.subrange(j - i, sub.len() as int) =~= v@.subrange(j as int, v.len() as int));
                lemma_join_push(done, v@.subrange(i as int, j as int), seq![' ']);
            }
            if any {
                push_char(&mut out, ' ');
            }
            push_range(&mut out, v, i, j);
            any = true;
            proof {
                done = done.push(v@.subrange(i as int, j as int));
            }
            i = j;
        }
    }
    out
}

/// `v` with every `|` escaped as `\|`.
pub fn escape_pipes_exec(v: &Vec<char>) -> (r: Vec<char>)
    ensures
        r@ == escape_pipes(v@),
{
    let mut r: Vec<char> = Vec::new();
    let mut i: usize = 0;
    assert(v@.subrange(0, 0) =~= Seq::<char>::empty());
    while i < v.len()
        invariant
            i <= v.len(),
            r@ == escape_pipes(v@.subrange(0, i as int)),
        decreases v.len() - i,
    {
        let ghost before = r@;
        if v[i] == '|' {
            r.push('\\');
            r.push('|');
        } else {
            r.push(v[i]);
        }
        assert(v@.subrange(0, i + 1).drop_last() =~= v@.subrange(0, i as int));
        assert(r@ =~= escape_pipes(v@.subrange(0, i + 1)));
        i += 1;
    }
    assert(v@.subrange(0, v.len() as int) =~= v@);
    r
}

/// Strings joined by `sep` between consecutive ones.
pub fn join_strs(parts: &Vec<String>, sep: &str) -> (r: String)
    ensures
        r@ == join(parts.deep_view(), sep@),
{
    let mut out = String::new();
    let mut i: usize = 0;
    assert(parts.deep_view().subrange(0, 0) =~= Seq::<Seq<char>>::empty());
    while i < parts.len()
        invariant
            i <= parts.len(),
            out@ == join(parts.deep_view().subrange(0, i as int), sep@),
        decreases parts.len() - i,
    {
        proof {
            lemma_join_push(parts.deep_view().subrange(0, i as int), parts.deep_view()[i as int], sep@);
            assert(parts.deep_view().subrange(0, i + 1) =~= parts.deep_view().subrange(0, i as int).push(parts.deep_view()[i as int]));
        }
        if i > 0 {
            push_str(&mut out, sep);
        }
        push_str(&mut out, parts[i].as_str());
        i += 1;
    }
    assert(parts.deep_view().subrange(0, parts.len() as int) =~= parts.deep_view());
    out
}

/// `v[from..to]` without one trailing `\r`.
fn strip_cr_range(v: &Vec<char>, from: usize, to: usize) -> (r: Vec<char>)
    requires
        from <= to <= v.len(),
    ensures
        r@ == strip_cr(v@.subrange(from as int, to as int)),
{
    let end = if to > from && v[to - 1] == '\r' { to - 1 } else { to };
    let mut r: Vec<char> = Vec::new();
    let mut i = from;
    while i < end
        invariant
            from <= i <= end <= to <= v.len(),
            r@ == v@.subrange(from as int, i as int),
        decreases end - i,
    {
        r.push(v[i]);
        i += 1;
        assert(r@ =~= v@.subrange(from as int, i as int));
    }
    proof {
        let line = v@.subrange(from as int, to as int);
        if to > from && v@[to - 1] == '\r' {
            assert(line.last() == v@[to - 1]);
            assert(line.drop_last() =~= v@.subrange(from as int, end as int));
        }
    }
    r
}

/// The lines of `v` (see [`lines`]).
pub fn lines_exec(v: &Vec<char>) -> (r: Vec<Vec<char>>)
    ensures
        r@.map_values(|l: Vec<char>| l@) == lines(v@),
{
    let nl = vec!['\n'];
    let mut r: Vec<Vec<char>> = Vec::new();
    let mut pos: usize = 0;
    assert(v@.subrange(0, v.len() as int) =~= v@);
    assert(r@.map_values(|l: Vec<char>| l@) =~= Seq::<Seq<char>>::empty());
    while pos < v.len()
        invariant
            pos <= v.len(),
            nl@ == seq!['\n'],
            lines(v@) == r@.map_values(|l: Vec<char>| l@) + lines(v@.subrange(pos as int, v.len() as int)),
        decreases v.len() - pos,
    {
        let ghost sub = v@.subrange(pos as int, v.len() as int);
        proof {
            lemma_find_shift(v@, nl@, pos as int);
            lemma_find_from(v@, nl@, pos as int);
        }
        let ghost before = r@.map_values(|l: Vec<char>| l@);
        match find_exec(v, &nl, pos) {
            Some(k) => {
                let line = strip_cr_range(v, pos, k);
                proof {
                    assert(sub.subrange(0, k - pos) =~= v@.subrange(pos as int, k as int));
                    assert(sub.subrange(k - pos + 1, sub.len() as int) =~= v@.subrange(k + 1, v.len() as int));
                }
                r.push(line);
                assert(r@.map_values(|l: Vec<char>| l@) =~= before.push(line@));
                pos = k + 1;
            },
            None => {
                let line = strip_cr_range(v, pos, pos);
                let mut whole: Vec<char> = Vec::new();
                let mut i = pos;
                while i < v.len()
                    invariant
                        pos <= i <= v.len(),
                        whole@ == v@.subrange(pos as int, i as int),
                    decreases v.len() - i,
                {
                    whole.push(v[i]);
                    i += 1;
                    assert(whole@ =~= v@.subrange(pos as int, i as int));
                }
                r.push(whole);
                assert(r@.map_values(|l: Vec<char>| l@) =~= before.push(sub));
                pos = v.len();
                assert(v@.subrange(pos as int, v.len() as int) =~= Seq::<char>::empty());
            },
        }
    }
    assert(r@.map_values(|l: Vec<char>| l@) + lines(v@.subrange(pos as int, v.len() as int)) =~= r@.map_values(|l: Vec<char>| l@));
    r
}

/// Whether `v[from..]` starts with `p`.
pub fn starts_with_at(v: &Vec<char>, from: usize, p: &Vec<char>) -> (r: bool)
    requires
        from <= v.len(),
    ensures
        r == starts_with(v@.subrange(from as int, v.len() as int), p@),
{
    let ghost sub = v@.subrange(from as int, v.len() as int);
    if p.len() > v.len() - from {
        return false;
    }
    let mut k: usize = 0;
    while k < p.len()
        invariant
            from + p.len() <= v.len(),
            k <= p.len(),
            sub == v@.subrange(from as int, v.len() as int),
            forall|m: int| 0 <= m < k ==> v@[from + m] == p@[m],
        decreases p.len() - k,
    {
        if v[from + k] != p[k] {
            assert(sub.subrange(0, p.len() as int)[k as int] == v@[from + k]);
            return false;
        }
        k += 1;
    }
    assert(sub.subrange(0, p.len() as int) =~= p@);
    true
}

/// Whether two character vectors are equal.
pub fn same_chars(a: &Vec<char>, b: &Vec<char>) -> (r: bool)
    ensures
        r == (a@ == b@),
{
    if a.len() != b.len() {
        return false;
    }
    let mut i: usize = 0;
    while i < a.len()
        invariant
            a.len() == b.len(),
            i <= a.len(),
            forall|k: int| 0 <= k < i ==> a@[k] == b@[k],
        decreases a.len() - i,
    {
        if a[i] != b[i] {
            return false;
        }
        i += 1;
    }
    assert(a@ =~= b@);
    true
}

/// Whether two strings are equal.
pub fn same_str(a: &str, b: &str) -> (r: bool)
    ensures
        r == (a@ == b@),
{
    same_chars(&chars_of(a), &chars_of(b))
}

/// Whether `needle` occurs in `hay`.
pub fn contains_str(hay: &str, needle: &str) -> (r: bool)
    ensures
        r == contains(hay@, needle@),
{
    find_exec(&chars_of(hay), &chars_of(needle), 0).is_some()
}

/// Whether `s` starts with `p`.
pub fn starts_with_str(s: &str, p: &str) -> (r: bool)
    ensures
        r == starts_with(s@, p@),
{
    let v = chars_of(s);
    assert(v@.subrange(0, v@.len() as int) =~= v@);
    starts_with_at(&v, 0, &chars_of(p))
}

/// Whether `s` ends with `p`.
pub fn ends_with_str(s: &str, p: &str) -> (r: bool)
    ensures
        r == ends_with(s@, p@),
{
    let v = chars_of(s);
    let q = chars_of(p);
    if q.len() > v.len() {
        return false;
    }
    let from = v.len() - q.len();
    let r = starts_with_at(&v, from, &q);
    let ghost sub = v@.subrange(from as int, v.len() as int);
    assert(sub.subrange(0, q@.len() as int) =~= sub);
    r
}

/// A string holding `s`.
pub fn string_from(s: &str) -> (r: String)
    ensures
        r@ == s@,
{
    let mut r = String::new();
    push_str(&mut r, s);
    r
}

/// A copy of a list of strings.
pub fn clone_strings(v: &Vec<String>) -> (r: Vec<String>)
    ensures
        r.deep_view() == v.deep_view(),
        r@.len() == v@.len(),
{
    let mut r: Vec<String> = Vec::new();
    let mut i: usize = 0;
    while i < v.len()
        invariant
            i <= v.len(),
            r@.len() == i,
            forall|k: int| 0 <= k < i ==> #[trigger] r@[k]@ == v@[k]@,
        decreases v.len() - i,
    {
        r.push(v[i].clone());
        i += 1;
    }
    assert(r.deep_view() =~= v.deep_view());
    r
}

/// Appends the decimal rendering of `n`.
pub fn push_decimal(out: &mut String, n: u64)
    ensures
        final(out)@ == old(out)@ + decimal(n as nat),
    decreases n,
{
    if n >= 10 {
        push_decimal(out, n / 10);
    }
    let d = (n % 10) as u8;
    let c = (48u8 + d) as char;
    push_char(out, c);
    assert(decimal(n as nat) == if n < 10 {
        seq![digit_char(n as nat)]
    } else {
        decimal((n / 10) as nat).push(digit_char((n % 10) as nat))
    });
}


/// The pieces of `s` between occurrences of `c`, as `str::split` yields
/// them: always at least one piece, empty pieces included.
pub open spec fn split_on(s: Seq<char>, c: char) -> Seq<Seq<char>>
    decreases s.len(),
{
    if s.len() == 0 {
        seq![seq![]]
    } else {
        let init = split_on(s.drop_last(), c);
        if s.last() == c {
            init.push(seq![])
        } else {
            init.update(init.len() - 1, init.last().push(s.last()))
        }
    }
}

pub proof fn lemma_split_nonempty(s: Seq<char>, c: char)
    ensures
        split_on(s, c).len() >= 1,
    decreases s.len(),
{
    if s.len() > 0 {
        lemma_split_nonempty(s.drop_last(), c);
    }
}

/// Joining the pieces with the separator gives the string back.
pub proof fn lemma_split_join(s: Seq<char>, c: char)
    ensures
        join(split_on(s, c), seq![c]) == s,
    decreases s.len(),
{
    if s.len() > 0 {
        let init = split_on(s.drop_last(), c);
        lemma_split_join(s.drop_last(), c);
        lemma_split_nonempty(s.drop_last(), c);
        let parts = split_on(s, c);
        if s.last() == c {
            assert(parts.drop_last() =~= init);
            assert(s =~= s.drop_last() + seq![c] + seq![]);
        } else {
            assert(parts.drop_last() =~= init.drop_last());
            if init.len() == 1 {
                assert(s =~= init.last().push(s.last()));
            } else {
                let d = s.drop_last();
                let pre = join(init.drop_last(), seq![c]);
                assert(join(init, seq![c]) == pre + seq![c] + init.last());
                assert(d == pre + seq![c] + init.last());
                assert(s =~= d.push(s.last()));
                assert(parts.last() == init.last().push(s.last()));
                assert(join(parts, seq![c]) == join(parts.drop_last(), seq![c]) + seq![c] + parts.last());
                assert(s =~= pre + seq![c] + init.last().push(s.last()));
            }
        }
    }
}

/// Splits `v` at every `c`.
pub fn split_chars(v: &Vec<char>, c: char) -> (r: Vec<Vec<char>>)
    ensures
        r@.map_values(|p: Vec<char>| p@) == split_on(v@, c),
{
    let mut parts: Vec<Vec<char>> = Vec::new();
    let mut cur: Vec<char> = Vec::new();
    let mut i: usize = 0;
    assert(v@.take(0) =~= seq![]);
    assert(parts@.map_values(|p: Vec<char>| p@).push(cur@) =~= seq![seq![]]);
    while i < v.len()
        invariant
            i <= v.len(),
            parts@.map_values(|p: Vec<char>| p@).push(cur@) == split_on(v@.take(i as int), c),
        decreases v.len() - i,
    {
        let ghost before = parts@.map_values(|p: Vec<char>| p@).push(cur@);
        assert(v@.take(i + 1).drop_last() =~= v@.take(i as int));
        assert(v@.take(i + 1).last() == v@[i as int]);
        if v[i] == c {
            parts.push(cur);
            cur = Vec::new();
            assert(parts@.map_values(|p: Vec<char>| p@).push(cur@) =~= before.push(seq![]));
        } else {
            cur.push(v[i]);
            assert(parts@.map_values(|p: Vec<char>| p@).push(cur@) =~= before.update(before.len() - 1, before.last().push(v@[i as int])));
        }
        i += 1;
    }
    assert(v@.take(v.len() as int) =~= v@);
    parts.push(cur);
    assert(parts@.map_values(|p: Vec<char>| p@) =~= split_on(v@, c));
    parts
}

pub open spec fn is_digit(c: char) -> bool {
    48 <= (c as int) <= 57
}

/// Length of the leading run of ASCII digits.
pub open spec fn digit_run(s: Seq<char>) -> nat
    decreases s.len(),
{
    if s.len() > 0 && is_digit(s[0]) {
        1 + digit_run(s.drop_first())
    } else {
        0
    }
}

/// Value of a string of decimal digits.
pub open spec fn digits_value(d: Seq<char>) -> nat
    decreases d.len(),
{
    if d.len() == 0 {
        0
    } else {
        digits_value(d.drop_last()) * 10 + ((d.last() as int) - 48) as nat
    }
}

/// The number its leading digits spell, read as a `u64`; 0 when there are
/// none or the number does not fit.
pub open spec fn numeric_prefix(s: Seq<char>) -> nat {
    let v = digits_value(s.take(digit_run(s) as int));
    if v <= u64::MAX {
        v
    } else {
        0
    }
}

proof fn lemma_digit_run(s: Seq<char>, i: int)
    requires
        0 <= i <= s.len(),
        forall|k: int| 0 <= k < i ==> is_digit(#[trigger] s[k]),
        i == s.len() || !is_digit(s[i]),
    ensures
        digit_run(s) == i,
    decreases i,
{
    if i > 0 {
        assert forall|k: int| 0 <= k < i - 1 implies is_digit(#[trigger] s.drop_first()[k]) by {
            assert(s.drop_first()[k] == s[k + 1]);
        }
        if i < s.len() {
            assert(s.drop_first()[i - 1] == s[i]);
        }
        lemma_digit_run(s.drop_first(), i - 1);
    }
}

proof fn lemma_digit_run_ge(s: Seq<char>, i: int)
    requires
        0 <= i <= s.len(),
        forall|k: int| 0 <= k < i ==> is_digit(#[trigger] s[k]),
    ensures
        i <= digit_run(s) <= s.len(),
    decreases s.len(),
{
    if s.len() > 0 {
        if i > 0 {
            assert forall|k: int| 0 <= k < i - 1 implies is_digit(#[trigger] s.drop_first()[k]) by {
                assert(s.drop_first()[k] == s[k + 1]);
            }
            lemma_digit_run_ge(s.drop_first(), i - 1);
        } else {
            lemma_digit_run_ge(s.drop_first(), 0);
        }
    }
}

proof fn lemma_digits_monotone(s: Seq<char>, j: int, k: int)
    requires
        0 <= j <= k <= s.len(),
    ensures
        digits_value(s.take(j)) <= digits_value(s.take(k)),
    decreases k - j,
{
    if j < k {
        lemma_digits_monotone(s, j, k - 1);
        assert(s.take(k).drop_last() =~= s.take(k - 1));
    }
}

/// `numeric_prefix` of `v`.
pub fn numeric_prefix_exec(v: &Vec<char>) -> (r: u64)
    ensures
        r == numeric_prefix(v@),
{
    let mut acc: u64 = 0;
    let mut i: usize = 0;
    assert(v@.take(0) =~= seq![]);
    while i < v.len() && '0' <= v[i] && v[i] <= '9'
        invariant
            i <= v.len(),
            forall|k: int| 0 <= k < i ==> is_digit(#[trigger] v@[k]),
            acc == digits_value(v@.take(i as int)),
        decreases v.len() - i,
    {
        let d = (v[i] as u32 - 48) as u64;
        assert(v@.take(i + 1).drop_last() =~= v@.take(i as int));
        let next = match acc.checked_mul(10) {
            Some(m) => m.checked_add(d),
            None => None,
        };
        match next {
            Some(n) => {
                acc = n;
            },
            None => {
                proof {
                    lemma_digit_run_ge(v@, i + 1);
                    lemma_digits_monotone(v@, i + 1, digit_run(v@) as int);
                }
                return 0;
            },
        }
        i += 1;
    }
    proof {
        lemma_digit_run(v@, i as int);
    }
    acc
}


/// Decimal rendering of an integer, with a leading `-` when negative.
pub open spec fn signed_decimal(n: int) -> Seq<char> {
    if n >= 0 {
        decimal(n as nat)
    } else {
        seq!['-'] + decimal((-n) as nat)
    }
}

/// Appends the decimal rendering of `n`.
pub fn push_signed(out: &mut String, n: i64)
    ensures
        final(out)@ == old(out)@ + signed_decimal(n as int),
{
    if n >= 0 {
        push_decimal(out, n as u64);
    } else {
        push_char(out, '-');
        let m: u64 = (-(n as i128)) as u64;
        push_decimal(out, m);
        assert(final(out)@ =~= old(out)@ + signed_decimal(n as int));
    }
}

/// Whether some element of `parts` is `p`.
pub fn has_part(parts: &Vec<Vec<char>>, p: &Vec<char>) -> (r: bool)
    ensures
        r == parts@.map_values(|x: Vec<char>| x@).contains(p@),
{
    let ghost pv = parts@.map_values(|x: Vec<char>| x@);
    let mut i: usize = 0;
    while i < parts.len()
        invariant
            i <= parts.len(),
            pv == parts@.map_values(|x: Vec<char>| x@),
            forall|k: int| 0 <= k < i ==> pv[k] != p@,
        decreases parts.len() - i,
    {
        if same_chars(&parts[i], p) {
            assert(pv[i as int] == p@);
            return true;
        }
        i += 1;
    }
    false
}


/// ASCII lowercase of a character, as a code point.
pub open spec fn ascii_lower(c: char) -> int {
    if 65 <= (c as u32) <= 90 { (c as u32) + 32 } else { c as u32 as int }
}

/// `str::eq_ignore_ascii_case`.
pub open spec fn eq_ignore_ascii_case(a: Seq<char>, b: Seq<char>) -> bool {
    a.len() == b.len() && forall|i: int| 0 <= i < a.len() ==> ascii_lower(#[trigger] a[i]) == ascii_lower(b[i])
}

pub fn eq_ignore_ascii_case_exec(a: &str, b: &str) -> (r: bool)
    ensures
        r == eq_ignore_ascii_case(a@, b@),
{
    let x = chars_of(a);
    let y = chars_of(b);
    if x.len() != y.len() {
        return false;
    }
    let mut i: usize = 0;
    while i < x.len()
        invariant
            i <= x.len(),
            x.len() == y.len(),
            x@ == a@,
            y@ == b@,
            forall|k: int| 0 <= k < i ==> ascii_lower(#[trigger] x@[k]) == ascii_lower(y@[k]),
        decreases x.len() - i,
    {
        let c1 = x[i];
        let c2 = y[i];
        let cx = c1 as u32;
        let cy = c2 as u32;
        let lx = if 65 <= cx && cx <= 90 { cx + 32 } else { cx };
        let ly = if 65 <= cy && cy <= 90 { cy + 32 } else { cy };
        assert(lx as int == ascii_lower(x@[i as int]));
        assert(ly as int == ascii_lower(y@[i as int]));
        if lx != ly {
            assert(ascii_lower(x@[i as int]) != ascii_lower(y@[i as int]));
            return false;
        }
        i += 1;
    }
    true
}


/// `str::parse::<u64>`: an optional `+` and at least one digit, with a
/// value that fits.
pub open spec fn parse_u64_spec(s: Seq<char>) -> Option<u64> {
    let d = if s.len() > 0 && s[0] == '+' { s.drop_first() } else { s };
    if d.len() > 0 && digit_run(d) == d.len() && digits_value(d) <= u64::MAX {
        Some(digits_value(d) as u64)
    } else {
        None
    }
}

/// Parses a decimal `u64` (see [`parse_u64_spec`]).
pub fn parse_u64(s: &str) -> (r: Option<u64>)
    ensures
        r == parse_u64_spec(s@),
{
    let v = chars_of(s);
    let start: usize = if v.len() > 0 && v[0] == '+' { 1 } else { 0 };
    let ghost d = if s@.len() > 0 && s@[0] == '+' { s@.drop_first() } else { s@ };
    assert(d =~= v@.subrange(start as int, v.len() as int));
    if start >= v.len() {
        return None;
    }
    let mut acc: u64 = 0;
    let mut i: usize = start;
    assert(d.take(0) =~= seq![]);
    while i < v.len()
        invariant
            start <= i <= v.len(),
            start < v.len(),
            v@ == s@,
            d == (if s@.len() > 0 && s@[0] == '+' { s@.drop_first() } else { s@ }),
            d == v@.subrange(start as int, v.len() as int),
            forall|k: int| 0 <= k < i - start ==> is_digit(#[trigger] d[k]),
            acc == digits_value(d.take(i - start)),
        decreases v.len() - i,
    {
        let c = v[i];
        assert(d[i - start] == c);
        if !('0' <= c && c <= '9') {
            proof {
                lemma_digit_run_stop(d, i - start);
            }
            return None;
        }
        let dig = (c as u32 - 48) as u64;
        assert(d.take(i - start + 1).drop_last() =~= d.take(i - start));
        let next = match acc.checked_mul(10) {
            Some(m) => m.checked_add(dig),
            None => None,
        };
        match next {
            Some(n) => {
                acc = n;
            },
            None => {
                proof {
                    lemma_digits_monotone(d, i - start + 1, d.len() as int);
                    assert(d.take(d.len() as int) =~= d);
                }
                return None;
            },
        }
        i += 1;
    }
    proof {
        lemma_digit_run(d, d.len() as int);
        assert(d.take(d.len() as int) =~= d);
    }
    Some(acc)
}

proof fn lemma_digit_run_stop(s: Seq<char>, i: int)
    requires
        0 <= i < s.len(),
        forall|k: int| 0 <= k < i ==> is_digit(#[trigger] s[k]),
        !is_digit(s[i]),
    ensures
        digit_run(s) != s.len(),
{
    lemma_digit_run(s, i);
}

/// `s` with every `from` replaced by `to`.
pub open spec fn replace_char(s: Seq<char>, from: char, to: char) -> Seq<char> {
    s.map_values(|c: char| if c == from { to } else { c })
}

/// `s` without leading `./` pairs, stripped one after another.
pub open spec fn strip_dot_slash(s: Seq<char>) -> Seq<char>
    decreases s.len(),
{
    if s.len() >= 2 && s[0] == '.' && s[1] == '/' {
        strip_dot_slash(s.skip(2))
    } else {
        s
    }
}

/// `s` without trailing `c` characters.
pub open spec fn trim_end_char(s: Seq<char>, c: char) -> Seq<char>
    decreases s.len(),
{
    if s.len() > 0 && s.last() == c {
        trim_end_char(s.drop_last(), c)
    } else {
        s
    }
}


/// What `str::to_lowercase` returns for a string (full Unicode lowercase
/// mapping).
pub uninterp spec fn lowercase(s: Seq<char>) -> Seq<char>;

/// Lowercases a string (`str::to_lowercase`).
#[verifier::external_body]
pub(crate) fn to_lower(s: &str) -> (r: String)
    ensures
        r@ == lowercase(s@),
{
    s.to_lowercase()
}


/// No line break in `s`.
pub open spec fn one_line(s: Seq<char>) -> bool {
    forall|j: int| 0 <= j < s.len() ==> s[j] != '\n'
}

/// Pieces of `lines` hold no line break.
pub proof fn lemma_lines_one_line(s: Seq<char>)
    ensures
        forall|i: int| 0 <= i < lines(s).len() ==> one_line(#[trigger] lines(s)[i]),
    decreases s.len(),
{
    if s.len() > 0 {
        lemma_find_from(s, seq!['\n'], 0);
        match find(s, seq!['\n']) {
            Some(k) => {
                let head = s.subrange(0, k);
                assert forall|j: int| 0 <= j < head.len() implies head[j] != '\n' by {
                    if head[j] == '\n' {
                        assert(s.subrange(j, j + 1) =~= seq!['\n']);
                        assert(occurs_at(s, seq!['\n'], j));
                    }
                }
                lemma_lines_one_line(s.subrange(k + 1, s.len() as int));
                let rest = lines(s.subrange(k + 1, s.len() as int));
                assert forall|i: int| 0 <= i < lines(s).len() implies one_line(#[trigger] lines(s)[i]) by {
                    if i > 0 {
                        assert(lines(s)[i] == rest[i - 1]);
                    }
                }
            },
            None => {
                assert forall|j: int| 0 <= j < s.len() implies s[j] != '\n' by {
                    if s[j] == '\n' {
                        assert(s.subrange(j, j + 1) =~= seq!['\n']);
                        assert(occurs_at(s, seq!['\n'], j));
                    }
                }
            },
        }
    }
}

/// Joining a first piece before a non-empty rest.
pub proof fn lemma_join_cons(a: Seq<char>, rest: Seq<Seq<char>>, sep: Seq<char>)
    requires
        rest.len() >= 1,
    ensures
        join(seq![a] + rest, sep) == a + sep + join(rest, sep),
    decreases rest.len(),
{
    let all = seq![a] + rest;
    assert(all.len() >= 2);
    assert(join(all, sep) == join(all.drop_last(), sep) + sep + all.last());
    if rest.len() == 1 {
        assert(all.drop_last() =~= seq![a]);
        assert(join(seq![a], sep) == a);
        assert(all.last() == rest[0]);
        assert(join(rest, sep) == rest[0]);
    } else {
        assert(all.drop_last() =~= seq![a] + rest.drop_last());
        lemma_join_cons(a, rest.drop_last(), sep);
        assert(all.last() == rest.last());
        assert(join(rest, sep) == join(rest.drop_last(), sep) + sep + rest.last());
        assert(a + sep + join(rest.drop_last(), sep) + sep + rest.last() =~= a + sep + (join(rest.drop_last(), sep) + sep + rest.last()));
    }
}

/// Reading back single-line pieces written one per line gives them back,
/// each losing a final carriage return.
pub proof fn lemma_lines_join(ls: Seq<Seq<char>>)
    requires
        ls.len() >= 1,
        forall|i: int| 0 <= i < ls.len() ==> one_line(#[trigger] ls[i]),
    ensures
        lines(join(ls, seq!['\n']) + seq!['\n']) == ls.map_values(|l: Seq<char>| strip_cr(l)),
    decreases ls.len(),
{
    let a = ls[0];
    assert(one_line(ls[0]));
    if occurs_in(a, seq!['\n']) {
        let j = choose|j: int| occurs_at(a, seq!['\n'], j);
        assert(a.subrange(j, j + 1)[0] == a[j]);
    }
    let nl = seq!['\n'];
    let text = join(ls, nl) + nl;
    if ls.len() == 1 {
        assert(join(ls, nl) == a);
        lemma_find_after(a, nl, seq![]);
        assert(a + nl + seq![] =~= text);
        assert(text.subrange(0, a.len() as int) =~= a);
        assert(text.subrange(a.len() as int + 1, text.len() as int) =~= Seq::<char>::empty());
        assert(lines(text) == seq![strip_cr(a)] + lines(Seq::<char>::empty()));
        assert(ls.map_values(|l: Seq<char>| strip_cr(l)) =~= seq![strip_cr(a)]);
    } else {
        let rest = ls.drop_first();
        assert(ls =~= seq![a] + rest);
        lemma_join_cons(a, rest, nl);
        let tail = join(rest, nl) + nl;
        assert(text =~= a + nl + tail);
        lemma_find_after(a, nl, tail);
        assert(text.subrange(0, a.len() as int) =~= a);
        assert(text.subrange(a.len() as int + 1, text.len() as int) =~= tail);
        assert forall|i: int| 0 <= i < rest.len() implies one_line(#[trigger] rest[i]) by {
            assert(rest[i] == ls[i + 1]);
        }
        lemma_lines_join(rest);
        assert(lines(text) == seq![strip_cr(a)] + lines(tail));
        assert(ls.map_values(|l: Seq<char>| strip_cr(l)) =~= seq![strip_cr(a)] + rest.map_values(|l: Seq<char>| strip_cr(l)));
    }
}

/// A final carriage return does not change what a line trims to.
pub proof fn lemma_trim_cr(y: Seq<char>)
    ensures
        trim(y.push('\r')) == trim(y),
    decreases y.len(),
{
    assert(is_ws('\r'));
    let z = y.push('\r');
    if y.len() > 0 && is_ws(y[0]) {
        assert(z.drop_first() =~= y.drop_first().push('\r'));
        lemma_trim_cr(y.drop_first());
    } else if y.len() == 0 {
        assert(z.drop_first() =~= Seq::<char>::empty());
        assert(trim_start(z) == trim_start(z.drop_first()));
    } else {
        assert(z[0] == y[0]);
        assert(trim_start(z) == z);
        assert(z.drop_last() =~= y);
    }
}


/// The first `word_len(s)` characters are not whitespace.
pub proof fn lemma_word_chars(s: Seq<char>)
    ensures
        word_len(s) <= s.len(),
        forall|j: int| 0 <= j < word_len(s) ==> !is_ws(#[trigger] s[j]),
    decreases s.len(),
{
    if s.len() > 0 && !is_ws(s[0]) {
        lemma_word_chars(s.drop_first());
        assert forall|j: int| 0 <= j < word_len(s) implies !is_ws(#[trigger] s[j]) by {
            if j > 0 {
                assert(s[j] == s.drop_first()[j - 1]);
            }
        }
    }
}

/// The pieces of `words` hold no line break.
pub proof fn lemma_words_one_line(s: Seq<char>)
    ensures
        forall|i: int| 0 <= i < words(s).len() ==> one_line(#[trigger] words(s)[i]),
    decreases s.len(),
{
    assert(is_ws('\n'));
    if s.len() > 0 {
        if is_ws(s[0]) {
            lemma_words_one_line(s.drop_first());
            assert(words(s) == words(s.drop_first()));
        } else {
            lemma_word_chars(s);
            let k = word_len(s);
            assert(k > 0);
            if 0 < k <= s.len() {
                let head = s.subrange(0, k as int);
                assert forall|j: int| 0 <= j < head.len() implies head[j] != '\n' by {
                    assert(head[j] == s[j]);
                }
                lemma_words_one_line(s.subrange(k as int, s.len() as int));
                let rest = words(s.subrange(k as int, s.len() as int));
                assert(words(s) == seq![head] + rest);
                assert forall|i: int| 0 <= i < words(s).len() implies one_line(#[trigger] words(s)[i]) by {
                    if i > 0 {
                        assert(words(s)[i] == rest[i - 1]);
                    } else {
                        assert(words(s)[0] == head);
                    }
                }
            }
        }
    }
}

/// Joining single-line pieces with a single-line separator gives one line.
pub proof fn lemma_join_one_line(parts: Seq<Seq<char>>, sep: Seq<char>)
    requires
        one_line(sep),
        forall|i: int| 0 <= i < parts.len() ==> one_line(#[trigger] parts[i]),
    ensures
        one_line(join(parts, sep)),
    decreases parts.len(),
{
    if parts.len() == 1 {
        assert(one_line(parts[0]));
    } else if parts.len() > 1 {
        let init = parts.drop_last();
        assert forall|i: int| 0 <= i < init.len() implies one_line(#[trigger] init[i]) by {
            assert(init[i] == parts[i]);
        }
        lemma_join_one_line(init, sep);
        let a = join(init, sep);
        let l = parts.last();
        assert(one_line(l));
        let all = a + sep + l;
        assert forall|j: int| 0 <= j < all.len() implies all[j] != '\n' by {
            if j < a.len() {
                assert(all[j] == a[j]);
            } else if j < a.len() + sep.len() {
                assert(all[j] == sep[j - a.len()]);
            } else {
                assert(all[j] == l[j - a.len() - sep.len()]);
            }
        }
    }
}

/// Escaping pipes adds no line break.
pub proof fn lemma_escape_one_line(s: Seq<char>)
    requires
        one_line(s),
    ensures
        one_line(escape_pipes(s)),
    decreases s.len(),
{
    if s.len() > 0 {
        let init = s.drop_last();
        assert forall|j: int| 0 <= j < init.len() implies init[j] != '\n' by {
            assert(init[j] == s[j]);
        }
        lemma_escape_one_line(init);
        let a = escape_pipes(init);
        let tail = if s.last() == '|' { seq!['\\', '|'] } else { seq![s.last()] };
        assert(escape_pipes(s) == a + tail);
        assert forall|j: int| 0 <= j < (a + tail).len() implies (a + tail)[j] != '\n' by {
            if j < a.len() {
                assert((a + tail)[j] == a[j]);
            } else {
                assert((a + tail)[j] == tail[j - a.len()]);
            }
        }
    }
}

/// A text ending in a line break reads as its own lines followed by those
/// of what comes after it.
pub proof fn lemma_lines_append(x: Seq<char>, y: Seq<char>)
    requires
        x.len() > 0,
        x.last() == '\n',
    ensures
        lines(x + y) == lines(x) + lines(y),
    decreases x.len(),
{
    let nl = seq!['\n'];
    let t = x + y;
    assert(x.subrange(x.len() - 1, x.len() as int) =~= nl);
    assert(occurs_at(x, nl, x.len() - 1));
    lemma_find_from(x, nl, 0);
    let k = find(x, nl).unwrap();
    assert(k < x.len());
    assert(t.subrange(k, k + 1) =~= x.subrange(k, k + 1));
    assert(find_from(x, nl, 0) == Some(k));
    assert forall|j: int| 0 <= j < k implies !occurs_at(t, nl, j) by {
        assert(!occurs_at(x, nl, j));
        assert(t.subrange(j, j + 1) =~= x.subrange(j, j + 1));
    }
    lemma_find_from_is(t, nl, 0, k);
    assert(t.subrange(0, k) =~= x.subrange(0, k));
    let rest = x.subrange(k + 1, x.len() as int);
    assert(t.subrange(k + 1, t.len() as int) =~= rest + y);
    assert(lines(t) == seq![strip_cr(x.subrange(0, k))] + lines(rest + y));
    assert(lines(x) == seq![strip_cr(x.subrange(0, k))] + lines(rest));
    if rest.len() == 0 {
        assert(rest + y =~= y);
        assert(lines(rest) == Seq::<Seq<char>>::empty());
        assert(lines(x) =~= seq![strip_cr(x.subrange(0, k))]);
    } else {
        assert(rest.last() == x.last());
        lemma_lines_append(rest, y);
        assert(seq![strip_cr(x.subrange(0, k))] + (lines(rest) + lines(y)) =~= (seq![strip_cr(x.subrange(0, k))] + lines(rest)) + lines(y));
    }
}

/// A non-empty text without a line break is one line.
pub proof fn lemma_lines_single(w: Seq<char>)
    requires
        w.len() > 0,
        one_line(w),
    ensures
        lines(w) == seq![w],
{
    let nl = seq!['\n'];
    assert forall|j: int| 0 <= j implies !occurs_at(w, nl, j) by {
        if occurs_at(w, nl, j) {
            assert(w.subrange(j, j + 1)[0] == w[j]);
        }
    }
    lemma_find_from_none(w, nl, 0);
}

/// A line followed by a line break reads as that line (without a final
/// carriage return).
pub proof fn lemma_lines_line(w: Seq<char>)
    requires
        one_line(w),
    ensures
        lines(w + seq!['\n']) == seq![strip_cr(w)],
{
    let ls = seq![w];
    assert forall|i: int| 0 <= i < ls.len() implies one_line(#[trigger] ls[i]) by {
        assert(ls[i] == w);
    }
    lemma_lines_join(ls);
    assert(join(ls, seq!['\n']) == w);
    assert(ls.map_values(|l: Seq<char>| strip_cr(l)) =~= seq![strip_cr(w)]);
}

/// Trimming the front of a text followed by one that opens with a
/// non-space trims only the first.
pub proof fn lemma_trim_start_concat(u: Seq<char>, v: Seq<char>)
    requires
        v.len() > 0,
        !is_ws(v[0]),
    ensures
        trim_start(u + v) == trim_start(u) + v,
    decreases u.len(),
{
    if u.len() == 0 {
        assert(u + v =~= v);
        assert(trim_start(u) + v =~= v);
    } else if is_ws(u[0]) {
        assert((u + v).drop_first() =~= u.drop_first() + v);
        lemma_trim_start_concat(u.drop_first(), v);
    } else {
        assert((u + v)[0] == u[0]);
    }
}

/// Trimming the end of `u + v`: with a non-space in `v` only `v` is
/// trimmed; with none, `v` goes and `u` is trimmed.
pub proof fn lemma_trim_end_concat(u: Seq<char>, v: Seq<char>)
    ensures
        (exists|i: int| 0 <= i < v.len() && !is_ws(v[i])) ==> trim_end(u + v) == u + trim_end(v),
        (forall|i: int| 0 <= i < v.len() ==> is_ws(v[i])) ==> trim_end(u + v) == trim_end(u),
    decreases v.len(),
{
    if v.len() == 0 {
        assert(u + v =~= u);
    } else {
        let w = u + v;
        assert(w.last() == v.last());
        assert(w.drop_last() =~= u + v.drop_last());
        lemma_trim_end_concat(u, v.drop_last());
        if is_ws(v.last()) {
            if exists|i: int| 0 <= i < v.len() && !is_ws(v[i]) {
                let i = choose|i: int| 0 <= i < v.len() && !is_ws(v[i]);
                assert(i < v.len() - 1);
                assert(v.drop_last()[i] == v[i]);
            }
            assert forall|i: int| 0 <= i < v.drop_last().len() && (forall|q: int| 0 <= q < v.len() ==> is_ws(v[q])) implies is_ws(v.drop_last()[i]) by {
                assert(v.drop_last()[i] == v[i]);
            }
        } else {
            assert(trim_end(v) == v);
            assert(trim_end(w) == w);
        }
    }
}

/// Trimming the end of a line followed by a line break leaves no line
/// break.
pub proof fn lemma_trim_end_line(w: Seq<char>)
    requires
        one_line(w),
    ensures
        one_line(trim_end(w + seq!['\n'])),
{
    let t = w + seq!['\n'];
    assert(is_ws('\n'));
    assert(t.last() == '\n');
    assert(t.drop_last() =~= w);
    assert(trim_end(t) == trim_end(w));
    lemma_trim_end_sub(w);
    assert forall|j: int| 0 <= j < trim_end(w).len() implies trim_end(w)[j] != '\n' by {
        assert(trim_end(w)[j] == w[j]);
    }
}

/// Trimming the front of a text that is empty or ends in a line break
/// leaves one that is empty or ends in a line break.
pub proof fn lemma_trim_start_keeps_newline(u: Seq<char>)
    requires
        u.len() == 0 || u.last() == '\n',
    ensures
        trim_start(u).len() == 0 || trim_start(u).last() == '\n',
{
    lemma_trim_start_sub(u);
    if trim_start(u).len() > 0 {
        assert(trim_start(u).last() == u.last());
    }
}

} // verus!
