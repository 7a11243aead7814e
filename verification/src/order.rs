use vstd::prelude::*;
use vstd::relations::{sorted_by, total_ordering};

use crate::text::chars_of;

verus! {

/// Lexicographic order by code point: the order of `str`/`String`
/// comparison (UTF-8 byte order agrees with code point order).
pub open spec fn lex_le(a: Seq<char>, b: Seq<char>) -> bool
    decreases a.len(),
{
    if a.len() == 0 {
        true
    } else if b.len() == 0 {
        false
    } else if a[0] != b[0] {
        (a[0] as int) < (b[0] as int)
    } else {
        lex_le(a.drop_first(), b.drop_first())
    }
}

pub open spec fn lex_leq() -> spec_fn(Seq<char>, Seq<char>) -> bool {
    |a: Seq<char>, b: Seq<char>| lex_le(a, b)
}

/// Strings in ascending order (what `Vec<String>::sort` produces).
pub open spec fn sorted_strings(s: Seq<Seq<char>>) -> Seq<Seq<char>> {
    s.sort_by(lex_leq())
}

pub proof fn lemma_lex_refl(a: Seq<char>)
    ensures
        lex_le(a, a),
    decreases a.len(),
{
    if a.len() > 0 {
        lemma_lex_refl(a.drop_first());
    }
}

pub proof fn lemma_lex_antisym(a: Seq<char>, b: Seq<char>)
    requires
        lex_le(a, b),
        lex_le(b, a),
    ensures
        a == b,
    decreases a.len(),
{
    if a.len() > 0 && b.len() > 0 && a[0] == b[0] {
        lemma_lex_antisym(a.drop_first(), b.drop_first());
        assert(a =~= seq![a[0]] + a.drop_first());
        assert(b =~= seq![b[0]] + b.drop_first());
    } else if a.len() > 0 && b.len() > 0 {
        assert((a[0] as int) != (b[0] as int));
    }
}

pub proof fn lemma_lex_trans(a: Seq<char>, b: Seq<char>, c: Seq<char>)
    requires
        lex_le(a, b),
        lex_le(b, c),
    ensures
        lex_le(a, c),
    decreases a.len(),
{
    if a.len() > 0 && b.len() > 0 && c.len() > 0 {
        if a[0] == b[0] && b[0] == c[0] {
            lemma_lex_trans(a.drop_first(), b.drop_first(), c.drop_first());
        } else {
            assert((a[0] as int) <= (b[0] as int));
            assert((b[0] as int) <= (c[0] as int));
            if a[0] == c[0] {
                assert((a[0] as int) == (c[0] as int));
                assert((a[0] as int) == (b[0] as int));
            }
        }
    }
}

pub proof fn lemma_lex_total(a: Seq<char>, b: Seq<char>)
    ensures
        lex_le(a, b) || lex_le(b, a),
    decreases a.len(),
{
    if a.len() > 0 && b.len() > 0 && a[0] == b[0] {
        lemma_lex_total(a.drop_first(), b.drop_first());
    } else if a.len() > 0 && b.len() > 0 {
        assert((a[0] as int) != (b[0] as int));
    }
}

pub proof fn lemma_lex_total_ordering()
    ensures
        total_ordering(lex_leq()),
{
    assert forall|a: Seq<char>| #[trigger] lex_leq()(a, a) by {
        lemma_lex_refl(a);
    }
    assert forall|a: Seq<char>, b: Seq<char>| #[trigger] lex_leq()(a, b) && #[trigger] lex_leq()(b, a) implies a == b by {
        lemma_lex_antisym(a, b);
    }
    assert forall|a: Seq<char>, b: Seq<char>, c: Seq<char>| #[trigger] lex_leq()(a, b) && #[trigger] lex_leq()(b, c) implies lex_leq()(a, c) by {
        lemma_lex_trans(a, b, c);
    }
    assert forall|a: Seq<char>, b: Seq<char>| #[trigger] lex_leq()(a, b) || #[trigger] lex_leq()(b, a) by {
        lemma_lex_total(a, b);
    }
}

/// `a <= b` in code point order.
pub fn lex_le_exec(a: &Vec<char>, b: &Vec<char>) -> (r: bool)
    ensures
        r == lex_le(a@, b@),
{
    let mut i: usize = 0;
    assert(a@.subrange(0, a.len() as int) =~= a@);
    assert(b@.subrange(0, b.len() as int) =~= b@);
    while i < a.len() && i < b.len() && a[i] == b[i]
        invariant
            i <= a.len(),
            i <= b.len(),
            lex_le(a@, b@) == lex_le(a@.subrange(i as int, a.len() as int), b@.subrange(i as int, b.len() as int)),
        decreases a.len() - i,
    {
        assert(a@.subrange(i as int, a.len() as int).drop_first() =~= a@.subrange(i + 1, a.len() as int));
        assert(b@.subrange(i as int, b.len() as int).drop_first() =~= b@.subrange(i + 1, b.len() as int));
        i += 1;
    }
    let ghost sa = a@.subrange(i as int, a.len() as int);
    let ghost sb = b@.subrange(i as int, b.len() as int);
    if i == a.len() {
        true
    } else if i == b.len() {
        false
    } else {
        assert(sa[0] == a@[i as int] && sb[0] == b@[i as int]);
        a[i] < b[i]
    }
}

/// Whether string `a` sorts at or before string `b`.
pub fn str_le(a: &str, b: &str) -> (r: bool)
    ensures
        r == lex_le(a@, b@),
{
    lex_le_exec(&chars_of(a), &chars_of(b))
}

/// The strings of `v`, in ascending order.
pub fn sort_strings(v: Vec<String>) -> (r: Vec<String>)
    ensures
        r.deep_view() == sorted_strings(v.deep_view()),
{
    let ghost leq = lex_leq();
    proof {
        lemma_lex_total_ordering();
    }
    let mut r: Vec<String> = Vec::new();
    let mut i: usize = 0;
    assert(r.deep_view() =~= Seq::<Seq<char>>::empty());
    assert(v.deep_view().subrange(0, 0) =~= Seq::<Seq<char>>::empty());
    while i < v.len()
        invariant
            i <= v.len(),
            leq == lex_leq(),
            total_ordering(leq),
            sorted_by(r.deep_view(), leq),
            r.deep_view().to_multiset() == v.deep_view().subrange(0, i as int).to_multiset(),
        decreases v.len() - i,
    {
        let x = v[i].clone();
        let mut p: usize = 0;
        while p < r.len() && str_le(r[p].as_str(), x.as_str())
            invariant
                p <= r.len(),
                i < v.len(),
                x@ == v.deep_view()[i as int],
                leq == lex_leq(),
                forall|q: int| 0 <= q < p ==> lex_le(#[trigger] r.deep_view()[q], x@),
            decreases r.len() - p,
        {
            p += 1;
        }
        let ghost old_r = r.deep_view();
        let ghost xv = x@;
        assert(p < old_r.len() ==> !lex_le(old_r[p as int], xv));
        r.insert(p, x);
        proof {
            assert(r.deep_view() =~= old_r.insert(p as int, v.deep_view()[i as int]));
            vstd::seq_lib::to_multiset_insert(old_r, p as int, v.deep_view()[i as int]);
            assert(v.deep_view().subrange(0, i + 1) =~= v.deep_view().subrange(0, i as int).push(v.deep_view()[i as int]));
            vstd::seq_lib::to_multiset_build(v.deep_view().subrange(0, i as int), v.deep_view()[i as int]);
            let nr = r.deep_view();
            assert forall|a: int, b: int| 0 <= a < b < nr.len() implies #[trigger] leq(nr[a], nr[b]) by {
                if b > p {
                    // x sorts before every element that follows it.
                    lemma_lex_total(old_r[p as int], xv);
                    if b - 1 > p {
                        assert(leq(old_r[p as int], old_r[b - 1]));
                        lemma_lex_trans(xv, old_r[p as int], old_r[b - 1]);
                    }
                    assert(lex_le(xv, old_r[b - 1]));
                    if a < p {
                        lemma_lex_trans(old_r[a], xv, old_r[b - 1]);
                    } else if a > p {
                        assert(leq(old_r[a - 1], old_r[b - 1]));
                    }
                } else if b == p {
                } else {
                    assert(leq(old_r[a], old_r[b]));
                }
            }
        }
        i += 1;
    }
    proof {
        assert(v.deep_view().subrange(0, v.len() as int) =~= v.deep_view());
        v.deep_view().lemma_sort_by_ensures(leq);
        vstd::seq_lib::lemma_sorted_unique(r.deep_view(), v.deep_view().sort_by(leq), leq);
    }
    r
}


/// Index order that sorts by key and keeps equal keys in original order.
pub open spec fn key_leq(keys: Seq<Seq<char>>) -> spec_fn(int, int) -> bool {
    |i: int, j: int| (lex_le(keys[i], keys[j]) && keys[i] != keys[j]) || (keys[i] == keys[j] && i <= j)
}

/// Indices `0..n` in stable ascending order of `keys`.
pub open spec fn stable_order(keys: Seq<Seq<char>>) -> Seq<int> {
    Seq::new(keys.len(), |i: int| i).sort_by(key_leq(keys))
}

pub proof fn lemma_key_total_ordering(keys: Seq<Seq<char>>)
    ensures
        total_ordering(key_leq(keys)),
{
    let leq = key_leq(keys);
    assert forall|a: int| #[trigger] leq(a, a) by {}
    assert forall|a: int, b: int| #[trigger] leq(a, b) && #[trigger] leq(b, a) implies a == b by {
        if keys[a] != keys[b] {
            lemma_lex_antisym(keys[a], keys[b]);
        }
    }
    assert forall|a: int, b: int, c: int| #[trigger] leq(a, b) && #[trigger] leq(b, c) implies leq(a, c) by {
        lemma_lex_refl(keys[a]);
        lemma_lex_refl(keys[b]);
        lemma_lex_trans(keys[a], keys[b], keys[c]);
        if keys[a] == keys[c] && keys[a] != keys[b] {
            lemma_lex_antisym(keys[a], keys[b]);
        }
    }
    assert forall|a: int, b: int| #[trigger] leq(a, b) || #[trigger] leq(b, a) by {
        lemma_lex_total(keys[a], keys[b]);
    }
}

/// Indices of `keys` in stable ascending key order.
pub fn stable_order_exec(keys: &Vec<Vec<char>>) -> (r: Vec<usize>)
    ensures
        r@.len() == keys@.len(),
        r@.map_values(|i: usize| i as int) == stable_order(keys@.map_values(|v: Vec<char>| v@)),
        forall|k: int| 0 <= k < r@.len() ==> r@[k] < keys@.len(),
{
    let ghost kv = keys@.map_values(|v: Vec<char>| v@);
    let ghost leq = key_leq(kv);
    proof {
        lemma_key_total_ordering(kv);
    }
    let mut r: Vec<usize> = Vec::new();
    let mut i: usize = 0;
    let ghost ids = Seq::new(kv.len(), |i: int| i);
    assert(r@.map_values(|i: usize| i as int) =~= Seq::<int>::empty());
    assert(ids.subrange(0, 0) =~= Seq::<int>::empty());
    while i < keys.len()
        invariant
            i <= keys.len(),
            kv == keys@.map_values(|v: Vec<char>| v@),
            leq == key_leq(kv),
            ids == Seq::new(kv.len(), |i: int| i),
            total_ordering(leq),
            r@.len() == i,
            forall|k: int| 0 <= k < r@.len() ==> r@[k] < i,
            sorted_by(r@.map_values(|i: usize| i as int), leq),
            r@.map_values(|i: usize| i as int).to_multiset() == ids.subrange(0, i as int).to_multiset(),
        decreases keys.len() - i,
    {
        let mut p: usize = 0;
        while p < r.len() && lex_le_exec(&keys[r[p]], &keys[i])
            invariant
                p <= r.len(),
                i < keys.len(),
                kv == keys@.map_values(|v: Vec<char>| v@),
                forall|k: int| 0 <= k < r@.len() ==> r@[k] < i,
                forall|q: int| 0 <= q < p ==> lex_le(kv[#[trigger] r@[q] as int], kv[i as int]),
            decreases r.len() - p,
        {
            p += 1;
        }
        let ghost old_r = r@.map_values(|i: usize| i as int);
        let ghost old_raw = r@;
        assert(p < old_r.len() ==> !lex_le(kv[old_r[p as int]], kv[i as int]));
        r.insert(p, i);
        proof {
            let nr = r@.map_values(|i: usize| i as int);
            let x = i as int;
            assert(nr =~= old_r.insert(p as int, x));
            vstd::seq_lib::to_multiset_insert(old_r, p as int, x);
            assert(ids.subrange(0, i + 1) =~= ids.subrange(0, i as int).push(x));
            vstd::seq_lib::to_multiset_build(ids.subrange(0, i as int), x);
            assert forall|a: int| 0 <= a < p implies #[trigger] leq(old_r[a], x) by {
                assert(lex_le(kv[old_raw[a] as int], kv[i as int]));
                assert(old_raw[a] < i);
            }
            if p < old_r.len() {
                lemma_lex_total(kv[old_r[p as int]], kv[x]);
                assert(leq(x, old_r[p as int]));
            }
            assert forall|a: int, b: int| 0 <= a < b < nr.len() implies #[trigger] leq(nr[a], nr[b]) by {
                if b > p {
                    if b - 1 > p {
                        assert(leq(old_r[p as int], old_r[b - 1]));
                    }
                    assert(leq(x, old_r[b - 1]));
                    if a < p {
                        assert(leq(old_r[a], x));
                    } else if a > p {
                        assert(leq(old_r[a - 1], old_r[b - 1]));
                    }
                } else if b == p {
                    assert(leq(old_r[a], x));
                } else {
                    assert(leq(old_r[a], old_r[b]));
                }
            }
        }
        i += 1;
    }
    proof {
        assert(ids.subrange(0, keys.len() as int) =~= ids);
        ids.lemma_sort_by_ensures(leq);
        vstd::seq_lib::lemma_sorted_unique(r@.map_values(|i: usize| i as int), ids.sort_by(leq), leq);
    }
    r
}


/// A sort key of three parts (text, number, text), compared in turn.
pub type Triple = (Seq<char>, u64, Seq<char>);

/// `a <= b` comparing the parts in turn, as tuples compare.
pub open spec fn triple_le(a: Triple, b: Triple) -> bool {
    if a.0 != b.0 {
        lex_le(a.0, b.0)
    } else if a.1 != b.1 {
        a.1 < b.1
    } else {
        lex_le(a.2, b.2)
    }
}

/// Index order that sorts by triple key and keeps equal keys in original
/// order.
pub open spec fn triple_key_leq(keys: Seq<Triple>) -> spec_fn(int, int) -> bool {
    |i: int, j: int| (triple_le(keys[i], keys[j]) && keys[i] != keys[j]) || (keys[i] == keys[j] && i <= j)
}

/// Indices `0..n` in stable ascending order of `keys` (a stable sort).
pub open spec fn triple_order(keys: Seq<Triple>) -> Seq<int> {
    Seq::new(keys.len(), |i: int| i).sort_by(triple_key_leq(keys))
}

proof fn lemma_triple_antisym(a: Triple, b: Triple)
    requires
        triple_le(a, b),
        triple_le(b, a),
    ensures
        a == b,
{
    if a.0 != b.0 {
        lemma_lex_antisym(a.0, b.0);
    } else if a.1 == b.1 {
        lemma_lex_antisym(a.2, b.2);
    }
}

proof fn lemma_triple_trans(a: Triple, b: Triple, c: Triple)
    requires
        triple_le(a, b),
        triple_le(b, c),
    ensures
        triple_le(a, c),
{
    if a.0 != b.0 && b.0 != c.0 {
        lemma_lex_trans(a.0, b.0, c.0);
        if a.0 == c.0 {
            lemma_lex_antisym(a.0, b.0);
        }
    } else if a.0 == b.0 && b.0 == c.0 {
        if a.1 == b.1 && b.1 == c.1 {
            lemma_lex_trans(a.2, b.2, c.2);
        }
    }
}

proof fn lemma_triple_total(a: Triple, b: Triple)
    ensures
        triple_le(a, b) || triple_le(b, a),
{
    lemma_lex_total(a.0, b.0);
    lemma_lex_total(a.2, b.2);
}

proof fn lemma_triple_refl(a: Triple)
    ensures
        triple_le(a, a),
{
    lemma_lex_refl(a.2);
}

pub proof fn lemma_triple_total_ordering(keys: Seq<Triple>)
    ensures
        total_ordering(triple_key_leq(keys)),
{
    let leq = triple_key_leq(keys);
    assert forall|a: int| #[trigger] leq(a, a) by {}
    assert forall|a: int, b: int| #[trigger] leq(a, b) && #[trigger] leq(b, a) implies a == b by {
        if keys[a] != keys[b] {
            lemma_triple_antisym(keys[a], keys[b]);
        }
    }
    assert forall|a: int, b: int, c: int| #[trigger] leq(a, b) && #[trigger] leq(b, c) implies leq(a, c) by {
        lemma_triple_refl(keys[a]);
        lemma_triple_refl(keys[b]);
        lemma_triple_trans(keys[a], keys[b], keys[c]);
        if keys[a] == keys[c] && keys[a] != keys[b] {
            lemma_triple_antisym(keys[a], keys[b]);
        }
    }
    assert forall|a: int, b: int| #[trigger] leq(a, b) || #[trigger] leq(b, a) by {
        lemma_triple_total(keys[a], keys[b]);
    }
}

/// The triple order is a permutation of the indices: as many entries as
/// keys, each a valid index.
pub proof fn lemma_triple_order_indices(keys: Seq<Triple>)
    ensures
        triple_order(keys).len() == keys.len(),
        forall|k: int| 0 <= k < keys.len() ==> 0 <= #[trigger] triple_order(keys)[k] < keys.len(),
{
    let leq = triple_key_leq(keys);
    lemma_triple_total_ordering(keys);
    let ids = Seq::new(keys.len(), |i: int| i);
    ids.lemma_sort_by_ensures(leq);
    let s = ids.sort_by(leq);
    ids.to_multiset_ensures();
    s.to_multiset_ensures();
    assert(s.len() == ids.len());
    assert forall|k: int| 0 <= k < keys.len() implies 0 <= #[trigger] triple_order(keys)[k] < keys.len() by {
        assert(s.contains(s[k]));
        if !ids.contains(s[k]) {
            assert(!s.contains(s[k]));
        }
        let j = choose|j: int| 0 <= j < ids.len() && ids[j] == s[k];
        assert(ids[j] == j);
    }
}

/// The order is a permutation: no index twice, every index once.
pub proof fn lemma_triple_order_permutation(keys: Seq<Triple>)
    ensures
        forall|j: int, k: int| 0 <= j < k < triple_order(keys).len() ==> #[trigger] triple_order(keys)[j] != #[trigger] triple_order(keys)[k],
        forall|q: int| 0 <= q < keys.len() ==> #[trigger] triple_order(keys).contains(q),
        forall|i: int, j: int| 0 <= i < j < keys.len() ==> triple_le(keys[#[trigger] triple_order(keys)[i]], keys[#[trigger] triple_order(keys)[j]]),
{
    let leq = triple_key_leq(keys);
    lemma_triple_total_ordering(keys);
    let ids = Seq::new(keys.len(), |i: int| i);
    ids.lemma_sort_by_ensures(leq);
    let s = ids.sort_by(leq);
    assert(s == triple_order(keys));
    ids.to_multiset_ensures();
    s.to_multiset_ensures();
    assert(ids.no_duplicates());
    ids.lemma_multiset_has_no_duplicates();
    s.lemma_multiset_has_no_duplicates_conv();
    assert forall|q: int| 0 <= q < keys.len() implies #[trigger] s.contains(q) by {
        assert(ids[q] == q);
        assert(ids.contains(q));
        assert(ids.to_multiset().count(q) > 0);
        assert(s.to_multiset().count(q) > 0);
        assert(s.contains(q));
    }
    lemma_triple_order_indices(keys);
    assert forall|i: int, j: int| 0 <= i < j < keys.len() implies triple_le(keys[#[trigger] s[i]], keys[#[trigger] s[j]]) by {
        assert(leq(s[i], s[j]));
        lemma_triple_refl(keys[s[i]]);
    }
}

pub open spec fn triple_view(k: (Vec<char>, u64, Vec<char>)) -> Triple {
    (k.0@, k.1, k.2@)
}

fn triple_le_exec(a: &(Vec<char>, u64, Vec<char>), b: &(Vec<char>, u64, Vec<char>)) -> (r: bool)
    ensures
        r == triple_le(triple_view(*a), triple_view(*b)),
{
    if !crate::text::same_chars(&a.0, &b.0) {
        lex_le_exec(&a.0, &b.0)
    } else if a.1 != b.1 {
        a.1 < b.1
    } else {
        lex_le_exec(&a.2, &b.2)
    }
}

/// Indices of `keys` in stable ascending triple order.
pub fn triple_order_exec(keys: &Vec<(Vec<char>, u64, Vec<char>)>) -> (r: Vec<usize>)
    ensures
        r@.len() == keys@.len(),
        r@.map_values(|i: usize| i as int) == triple_order(keys@.map_values(|k: (Vec<char>, u64, Vec<char>)| triple_view(k))),
        forall|k: int| 0 <= k < r@.len() ==> r@[k] < keys@.len(),
{
    let ghost kv = keys@.map_values(|k: (Vec<char>, u64, Vec<char>)| triple_view(k));
    let ghost leq = triple_key_leq(kv);
    proof {
        lemma_triple_total_ordering(kv);
    }
    let mut r: Vec<usize> = Vec::new();
    let mut i: usize = 0;
    let ghost ids = Seq::new(kv.len(), |i: int| i);
    assert(r@.map_values(|i: usize| i as int) =~= Seq::<int>::empty());
    assert(ids.subrange(0, 0) =~= Seq::<int>::empty());
    while i < keys.len()
        invariant
            i <= keys.len(),
            kv == keys@.map_values(|k: (Vec<char>, u64, Vec<char>)| triple_view(k)),
            leq == triple_key_leq(kv),
            ids == Seq::new(kv.len(), |i: int| i),
            total_ordering(leq),
            r@.len() == i,
            forall|k: int| 0 <= k < r@.len() ==> r@[k] < i,
            sorted_by(r@.map_values(|i: usize| i as int), leq),
            r@.map_values(|i: usize| i as int).to_multiset() == ids.subrange(0, i as int).to_multiset(),
        decreases keys.len() - i,
    {
        let mut p: usize = 0;
        while p < r.len() && triple_le_exec(&keys[r[p]], &keys[i])
            invariant
                p <= r.len(),
                i < keys.len(),
                kv == keys@.map_values(|k: (Vec<char>, u64, Vec<char>)| triple_view(k)),
                forall|k: int| 0 <= k < r@.len() ==> r@[k] < i,
                forall|q: int| 0 <= q < p ==> triple_le(kv[#[trigger] r@[q] as int], kv[i as int]),
            decreases r.len() - p,
        {
            p += 1;
        }
        let ghost old_r = r@.map_values(|i: usize| i as int);
        let ghost old_raw = r@;
        assert(p < old_r.len() ==> !triple_le(kv[old_r[p as int]], kv[i as int]));
        r.insert(p, i);
        proof {
            let nr = r@.map_values(|i: usize| i as int);
            let x = i as int;
            assert(nr =~= old_r.insert(p as int, x));
            vstd::seq_lib::to_multiset_insert(old_r, p as int, x);
            assert(ids.subrange(0, i + 1) =~= ids.subrange(0, i as int).push(x));
            vstd::seq_lib::to_multiset_build(ids.subrange(0, i as int), x);
            assert forall|a: int| 0 <= a < p implies #[trigger] leq(old_r[a], x) by {
                assert(triple_le(kv[old_raw[a] as int], kv[i as int]));
                assert(old_raw[a] < i);
            }
            if p < old_r.len() {
                lemma_triple_total(kv[old_r[p as int]], kv[x]);
                assert(leq(x, old_r[p as int]));
            }
            assert forall|a: int, b: int| 0 <= a < b < nr.len() implies #[trigger] leq(nr[a], nr[b]) by {
                if b > p {
                    if b - 1 > p {
                        assert(leq(old_r[p as int], old_r[b - 1]));
                    }
                    assert(leq(x, old_r[b - 1]));
                    if a < p {
                        assert(leq(old_r[a], x));
                    } else if a > p {
                        assert(leq(old_r[a - 1], old_r[b - 1]));
                    }
                } else if b == p {
                    assert(leq(old_r[a], x));
                } else {
                    assert(leq(old_r[a], old_r[b]));
                }
            }
        }
        i += 1;
    }
    proof {
        assert(ids.subrange(0, keys.len() as int) =~= ids);
        ids.lemma_sort_by_ensures(leq);
        vstd::seq_lib::lemma_sorted_unique(r@.map_values(|i: usize| i as int), ids.sort_by(leq), leq);
    }
    r
}


/// The stable order lists every index once and puts the keys in ascending
/// order.
pub proof fn lemma_stable_order_sorted(keys: Seq<Seq<char>>)
    ensures
        stable_order(keys).len() == keys.len(),
        forall|k: int| 0 <= k < keys.len() ==> 0 <= #[trigger] stable_order(keys)[k] < keys.len(),
        forall|i: int, j: int|
            0 <= i < j < keys.len() ==> lex_le(keys[#[trigger] stable_order(keys)[i]], keys[#[trigger] stable_order(keys)[j]]),
{
    let leq = key_leq(keys);
    lemma_key_total_ordering(keys);
    let ids = Seq::new(keys.len(), |i: int| i);
    ids.lemma_sort_by_ensures(leq);
    let s = ids.sort_by(leq);
    ids.to_multiset_ensures();
    s.to_multiset_ensures();
    assert(s.len() == ids.len());
    assert forall|k: int| 0 <= k < keys.len() implies 0 <= #[trigger] stable_order(keys)[k] < keys.len() by {
        assert(s.contains(s[k]));
        if !ids.contains(s[k]) {
            assert(!s.contains(s[k]));
        }
        let j = choose|j: int| 0 <= j < ids.len() && ids[j] == s[k];
        assert(ids[j] == j);
    }
    assert forall|i: int, j: int| 0 <= i < j < keys.len() implies lex_le(
        keys[#[trigger] stable_order(keys)[i]],
        keys[#[trigger] stable_order(keys)[j]],
    ) by {
        assert(leq(s[i], s[j]));
        lemma_lex_refl(keys[s[i]]);
    }
}

} // verus!
