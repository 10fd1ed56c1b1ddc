//! Stable sorting by a text key, the order `slice::sort_by_key` produces when
//! keys compare as `str::cmp` does.
use vstd::prelude::*;

use crate::split::views;
use crate::text::{ascii_lowercase, chars_of, lex_le, lex_less_eq, lower};

verus! {

/// `s` with `x` inserted after every element whose key is not greater than `x`'s,
/// where `s` is already in order.
pub open spec fn insert_by<A>(s: Seq<A>, x: A, key: spec_fn(A) -> Seq<char>) -> Seq<A>
    decreases s.len(),
{
    if s.len() == 0 {
        seq![x]
    } else if lex_le(key(s.last()), key(x)) {
        s.push(x)
    } else {
        insert_by(s.drop_last(), x, key).push(s.last())
    }
}

/// The stable sort of `s` by `key`.
pub open spec fn sort_by<A>(s: Seq<A>, key: spec_fn(A) -> Seq<char>) -> Seq<A>
    decreases s.len(),
{
    if s.len() == 0 {
        s
    } else {
        insert_by(sort_by(s.drop_last(), key), s.last(), key)
    }
}

/// `key` ascends along `s`.
pub open spec fn sorted_by<A>(s: Seq<A>, key: spec_fn(A) -> Seq<char>) -> bool {
    forall|i: int, j: int| 0 <= i < j < s.len() ==> lex_le(#[trigger] key(s[i]), #[trigger] key(s[j]))
}

/// Lines ordered by their ASCII-lower-cased text.
pub open spec fn lower_key() -> spec_fn(Seq<char>) -> Seq<char> {
    |l: Seq<char>| lower(l)
}

pub proof fn lemma_lex_le_total(a: Seq<char>, b: Seq<char>)
    ensures
        lex_le(a, b) || lex_le(b, a),
    decreases a.len(),
{
    if a.len() > 0 && b.len() > 0 {
        if a[0] == b[0] {
            lemma_lex_le_total(a.drop_first(), b.drop_first());
        } else {
            vstd::utf8::char_u32_cast(a[0], a[0] as u32);
            vstd::utf8::char_u32_cast(b[0], b[0] as u32);
            assert((a[0] as u32) != (b[0] as u32));
        }
    }
}

pub proof fn lemma_lex_le_refl(a: Seq<char>)
    ensures
        lex_le(a, a),
    decreases a.len(),
{
    if a.len() > 0 {
        lemma_lex_le_refl(a.drop_first());
    }
}

pub proof fn lemma_lex_le_trans(a: Seq<char>, b: Seq<char>, c: Seq<char>)
    requires
        lex_le(a, b),
        lex_le(b, c),
    ensures
        lex_le(a, c),
    decreases a.len(),
{
    if a.len() > 0 && b.len() > 0 && c.len() > 0 && a[0] == b[0] && b[0] == c[0] {
        lemma_lex_le_trans(a.drop_first(), b.drop_first(), c.drop_first());
    }
}

pub proof fn lemma_lex_le_antisym(a: Seq<char>, b: Seq<char>)
    requires
        lex_le(a, b),
        lex_le(b, a),
    ensures
        a == b,
    decreases a.len(),
{
    if a.len() > 0 && b.len() > 0 {
        if a[0] == b[0] {
            lemma_lex_le_antisym(a.drop_first(), b.drop_first());
            assert(a =~= seq![a[0]] + a.drop_first());
            assert(b =~= seq![b[0]] + b.drop_first());
        } else {
            assert((a[0] as u32) != (b[0] as u32));
        }
    }
}

/// Where the insertion lands: after the last element whose key does not exceed `x`'s.
pub proof fn lemma_insert_by_at<A>(s: Seq<A>, x: A, key: spec_fn(A) -> Seq<char>, pos: int)
    requires
        0 <= pos <= s.len(),
        pos > 0 ==> lex_le(key(s[pos - 1]), key(x)),
        forall|j: int| pos <= j < s.len() ==> !lex_le(#[trigger] key(s[j]), key(x)),
    ensures
        insert_by(s, x, key) == s.take(pos).push(x) + s.skip(pos),
    decreases s.len(),
{
    if s.len() == 0 {
        assert(s.take(pos).push(x) + s.skip(pos) =~= seq![x]);
    } else if pos == s.len() {
        assert(s.take(pos).push(x) + s.skip(pos) =~= s.push(x));
    } else {
        assert(!lex_le(key(s[s.len() - 1]), key(x)));
        let t = s.drop_last();
        assert forall|j: int| pos <= j < t.len() implies !lex_le(#[trigger] key(t[j]), key(x)) by {
            assert(t[j] == s[j]);
        }
        lemma_insert_by_at(t, x, key, pos);
        assert(t.take(pos).push(x) + t.skip(pos) + seq![s.last()] =~= s.take(pos).push(x) + s.skip(
            pos,
        ));
    }
}

/// Inserting into an ordered sequence keeps it ordered and adds exactly `x`.
pub proof fn lemma_insert_by_sorted<A>(s: Seq<A>, x: A, key: spec_fn(A) -> Seq<char>)
    requires
        sorted_by(s, key),
    ensures
        sorted_by(insert_by(s, x, key), key),
        insert_by(s, x, key).to_multiset() == s.to_multiset().insert(x),
    decreases s.len(),
{
    broadcast use vstd::multiset::group_multiset_axioms;

    if s.len() == 0 {
        assert(seq![x] =~= Seq::<A>::empty().push(x));
        Seq::<A>::empty().lemma_multiset_has_no_duplicates();
        s.to_multiset_ensures();
        Seq::<A>::empty().push(x).to_multiset_ensures();
        assert(s =~= Seq::<A>::empty());
    } else if lex_le(key(s.last()), key(x)) {
        s.to_multiset_ensures();
        assert forall|i: int, j: int| 0 <= i < j < s.push(x).len() implies lex_le(
            #[trigger] key(s.push(x)[i]),
            #[trigger] key(s.push(x)[j]),
        ) by {
            if j == s.len() {
                if i < s.len() - 1 {
                    lemma_lex_le_trans(key(s[i]), key(s.last()), key(x));
                }
            }
        }
    } else {
        let t = s.drop_last();
        assert(sorted_by(t, key)) by {
            assert forall|i: int, j: int| 0 <= i < j < t.len() implies lex_le(
                #[trigger] key(t[i]),
                #[trigger] key(t[j]),
            ) by {
                assert(t[i] == s[i] && t[j] == s[j]);
            }
        }
        lemma_insert_by_sorted(t, x, key);
        let r = insert_by(t, x, key);
        lemma_lex_le_total(key(s.last()), key(x));
        // every element of r is x or an element of t, all not above s.last()
        assert forall|k: int| 0 <= k < r.len() implies lex_le(#[trigger] key(r[k]), key(s.last())) by {
            r.to_multiset_ensures();
            t.to_multiset_ensures();
            assert(r.to_multiset().count(r[k]) > 0);
            if r[k] != x {
                assert(t.to_multiset().count(r[k]) > 0);
                assert(t.contains(r[k]));
                let m = choose|m: int| 0 <= m < t.len() && t[m] == r[k];
                assert(s[m] == t[m]);
            }
        }
        assert forall|i: int, j: int| 0 <= i < j < r.push(s.last()).len() implies lex_le(
            #[trigger] key(r.push(s.last())[i]),
            #[trigger] key(r.push(s.last())[j]),
        ) by {
            if j == r.len() {
                assert(r.push(s.last())[i] == r[i]);
            } else {
                assert(r.push(s.last())[i] == r[i] && r.push(s.last())[j] == r[j]);
            }
        }
        r.to_multiset_ensures();
        t.to_multiset_ensures();
        s.to_multiset_ensures();
        assert(s =~= t.push(s.last()));
    }
}

/// The stable sort is ordered and holds exactly the input's elements.
pub proof fn lemma_sort_by_sorted<A>(s: Seq<A>, key: spec_fn(A) -> Seq<char>)
    ensures
        sorted_by(sort_by(s, key), key),
        sort_by(s, key).to_multiset() == s.to_multiset(),
    decreases s.len(),
{
    broadcast use vstd::multiset::group_multiset_axioms;

    if s.len() == 0 {
    } else {
        lemma_sort_by_sorted(s.drop_last(), key);
        lemma_insert_by_sorted(sort_by(s.drop_last(), key), s.last(), key);
        s.drop_last().to_multiset_ensures();
        s.to_multiset_ensures();
        assert(s =~= s.drop_last().push(s.last()));
    }
}

/// Two ordered sequences with the same elements are equal when no two distinct
/// elements share a key.
pub proof fn lemma_sorted_unique<A>(a: Seq<A>, b: Seq<A>, key: spec_fn(A) -> Seq<char>)
    requires
        sorted_by(a, key),
        sorted_by(b, key),
        a.to_multiset() == b.to_multiset(),
        forall|i: int, j: int|
            0 <= i < a.len() && 0 <= j < a.len() && #[trigger] key(a[i]) == #[trigger] key(a[j])
                ==> a[i] == a[j],
    ensures
        a == b,
    decreases a.len(),
{
    broadcast use vstd::multiset::group_multiset_axioms;

    a.to_multiset_ensures();
    b.to_multiset_ensures();
    if a.len() == 0 {
        assert(b.to_multiset().len() == 0);
        assert(b.len() == 0);
        assert(a =~= b);
    } else {
        assert(a.len() == b.len());
        let la = a.last();
        let lb = b.last();
        // a's last is in b, hence not above b's last; and conversely
        assert(b.to_multiset().count(la) > 0);
        assert(b.contains(la));
        let ib = choose|m: int| 0 <= m < b.len() && b[m] == la;
        assert(a.to_multiset().count(lb) > 0);
        assert(a.contains(lb));
        let ia = choose|m: int| 0 <= m < a.len() && a[m] == lb;
        if ib < b.len() - 1 {
            assert(lex_le(key(b[ib]), key(b[b.len() - 1])));
        } else {
            lemma_lex_le_refl(key(la));
        }
        if ia < a.len() - 1 {
            assert(lex_le(key(a[ia]), key(a[a.len() - 1])));
        } else {
            lemma_lex_le_refl(key(lb));
        }
        lemma_lex_le_antisym(key(la), key(lb));
        assert(key(a[a.len() - 1]) == key(a[ia]));
        assert(la == lb);
        let ta = a.drop_last();
        let tb = b.drop_last();
        assert(a =~= ta.push(la));
        assert(b =~= tb.push(lb));
        ta.to_multiset_ensures();
        tb.to_multiset_ensures();
        assert(ta.push(la).to_multiset() =~= ta.to_multiset().insert(la));
        assert(tb.push(lb).to_multiset() =~= tb.to_multiset().insert(lb));
        assert forall|v: A| ta.to_multiset().count(v) == tb.to_multiset().count(v) by {
            assert(a.to_multiset().count(v) == b.to_multiset().count(v));
            assert(a.to_multiset() == ta.to_multiset().insert(la));
            assert(b.to_multiset() == tb.to_multiset().insert(la));
            if v == la {
                assert(ta.to_multiset().insert(la).count(v) == ta.to_multiset().count(v) + 1);
                assert(tb.to_multiset().insert(la).count(v) == tb.to_multiset().count(v) + 1);
            } else {
                assert(ta.to_multiset().insert(la).count(v) == ta.to_multiset().count(v));
                assert(tb.to_multiset().insert(la).count(v) == tb.to_multiset().count(v));
            }
        }
        assert(ta.to_multiset() =~= tb.to_multiset());
        assert forall|i: int, j: int|
            0 <= i < ta.len() && 0 <= j < ta.len() && #[trigger] key(ta[i]) == #[trigger] key(ta[j])
                implies ta[i] == ta[j] by {
            assert(ta[i] == a[i] && ta[j] == a[j]);
        }
        assert(sorted_by(ta, key)) by {
            assert forall|i: int, j: int| 0 <= i < j < ta.len() implies lex_le(
                #[trigger] key(ta[i]),
                #[trigger] key(ta[j]),
            ) by {
                assert(ta[i] == a[i] && ta[j] == a[j]);
            }
        }
        assert(sorted_by(tb, key)) by {
            assert forall|i: int, j: int| 0 <= i < j < tb.len() implies lex_le(
                #[trigger] key(tb[i]),
                #[trigger] key(tb[j]),
            ) by {
                assert(tb[i] == b[i] && tb[j] == b[j]);
            }
        }
        lemma_sorted_unique(ta, tb, key);
    }
}

/// Position at which the stable insertion of a line with lower-cased text
/// `xk` lands in `out`.
fn insertion_point(out: &Vec<String>, xk: &Vec<char>) -> (pos: usize)
    ensures
        pos <= out.len(),
        pos > 0 ==> lex_le(lower(out@[pos - 1]@), xk@),
        forall|j: int| pos <= j < out.len() ==> !lex_le(lower(#[trigger] out@[j]@), xk@),
{
    let mut pos = out.len();
    while pos > 0
        invariant
            pos <= out.len(),
            forall|j: int| pos <= j < out.len() ==> !lex_le(lower(#[trigger] out@[j]@), xk@),
        decreases pos,
    {
        let lk = ascii_lowercase(out[pos - 1].as_str());
        let lv = chars_of(lk.as_str());
        if lex_less_eq(&lv, xk) {
            return pos;
        }
        pos -= 1;
    }
    pos
}

/// Stable sort of lines by their ASCII-lower-cased text.
pub fn sort_lines_by_lowercase(lines: Vec<String>) -> (r: Vec<String>)
    ensures
        views(r@) == sort_by(views(lines@), lower_key()),
{
    let mut out: Vec<String> = Vec::new();
    let mut i: usize = 0;
    let ghost lv = views(lines@);
    let ghost key = lower_key();
    assert(views(out@) =~= sort_by(lv.take(0), key));
    while i < lines.len()
        invariant
            i <= lines.len(),
            lv == views(lines@),
            key == lower_key(),
            views(out@) == sort_by(lv.take(i as int), key),
        decreases lines.len() - i,
    {
        let x = lines[i].as_str();
        let xl = ascii_lowercase(x);
        let xk = chars_of(xl.as_str());
        let pos = insertion_point(&out, &xk);
        let ghost before = views(out@);
        proof {
            assert forall|j: int| pos <= j < before.len() implies !lex_le(
                #[trigger] key(before[j]),
                key(lv[i as int]),
            ) by {
                assert(before[j] == out@[j]@);
            }
            if pos > 0 {
                assert(before[pos - 1] == out@[pos - 1]@);
            }
            lemma_insert_by_at(before, lv[i as int], key, pos as int);
            assert(lv.take(i + 1).drop_last() =~= lv.take(i as int));
        }
        out.insert(pos, lines[i].clone());
        assert(views(out@) =~= before.take(pos as int).push(lv[i as int]) + before.skip(pos as int));
        i += 1;
    }
    assert(lv.take(lines.len() as int) =~= lv);
    out
}

/// Number of elements of `s` that satisfy `p`.
pub open spec fn count_where<A>(s: Seq<A>, p: spec_fn(A) -> bool) -> nat
    decreases s.len(),
{
    if s.len() == 0 {
        0
    } else {
        count_where(s.drop_last(), p) + if p(s.last()) {
            1nat
        } else {
            0nat
        }
    }
}

proof fn lemma_count_where_remove<A>(s: Seq<A>, k: int, p: spec_fn(A) -> bool)
    requires
        0 <= k < s.len(),
    ensures
        count_where(s, p) == count_where(s.remove(k), p) + if p(s[k]) {
            1nat
        } else {
            0nat
        },
    decreases s.len(),
{
    if k == s.len() - 1 {
        assert(s.remove(k) =~= s.drop_last());
    } else {
        lemma_count_where_remove(s.drop_last(), k, p);
        assert(s.remove(k).drop_last() =~= s.drop_last().remove(k));
        assert(s.remove(k).last() == s.last());
    }
}

/// Counting is independent of order: sequences with the same elements have
/// the same number of elements satisfying any predicate.
pub proof fn lemma_count_where_permutation<A>(a: Seq<A>, b: Seq<A>, p: spec_fn(A) -> bool)
    requires
        a.to_multiset() == b.to_multiset(),
    ensures
        count_where(a, p) == count_where(b, p),
    decreases a.len(),
{
    broadcast use vstd::multiset::group_multiset_axioms;

    a.to_multiset_ensures();
    b.to_multiset_ensures();
    if a.len() == 0 {
        assert(b.len() == 0);
    } else {
        let y = a.last();
        assert(a.contains(y)) by {
            assert(a[a.len() - 1] == y);
        }
        assert(a.to_multiset().count(y) > 0);
        assert(b.contains(y));
        let k = choose|k: int| 0 <= k < b.len() && b[k] == y;
        assert(a =~= a.drop_last().push(y));
        a.drop_last().to_multiset_ensures();
        assert(a.drop_last().to_multiset() =~= a.to_multiset().remove(y));
        assert(b.remove(k).to_multiset() =~= b.to_multiset().remove(y));
        lemma_count_where_permutation(a.drop_last(), b.remove(k), p);
        lemma_count_where_remove(b, k, p);
    }
}

/// Lines ordered by their own text (`str::cmp`).
pub open spec fn text_key() -> spec_fn(Seq<char>) -> Seq<char> {
    |l: Seq<char>| l
}

fn text_insertion_point(out: &Vec<String>, x: &Vec<char>) -> (pos: usize)
    ensures
        pos <= out.len(),
        pos > 0 ==> lex_le(out@[pos - 1]@, x@),
        forall|j: int| pos <= j < out.len() ==> !lex_le(#[trigger] out@[j]@, x@),
{
    let mut pos = out.len();
    while pos > 0
        invariant
            pos <= out.len(),
            forall|j: int| pos <= j < out.len() ==> !lex_le(#[trigger] out@[j]@, x@),
        decreases pos,
    {
        let lv = chars_of(out[pos - 1].as_str());
        if lex_less_eq(&lv, x) {
            return pos;
        }
        pos -= 1;
    }
    pos
}

/// Stable sort of strings by their text, as `slice::sort` orders `String`s.
pub fn sort_strings(lines: Vec<String>) -> (r: Vec<String>)
    ensures
        views(r@) == sort_by(views(lines@), text_key()),
{
    let mut out: Vec<String> = Vec::new();
    let mut i: usize = 0;
    let ghost lv = views(lines@);
    let ghost key = text_key();
    assert(views(out@) =~= sort_by(lv.take(0), key));
    while i < lines.len()
        invariant
            i <= lines.len(),
            lv == views(lines@),
            key == text_key(),
            views(out@) == sort_by(lv.take(i as int), key),
        decreases lines.len() - i,
    {
        let xk = chars_of(lines[i].as_str());
        let pos = text_insertion_point(&out, &xk);
        let ghost before = views(out@);
        proof {
            assert forall|j: int| pos <= j < before.len() implies !lex_le(
                #[trigger] key(before[j]),
                key(lv[i as int]),
            ) by {
                assert(before[j] == out@[j]@);
            }
            if pos > 0 {
                assert(before[pos - 1] == out@[pos - 1]@);
            }
            lemma_insert_by_at(before, lv[i as int], key, pos as int);
            assert(lv.take(i + 1).drop_last() =~= lv.take(i as int));
        }
        out.insert(pos, lines[i].clone());
        assert(views(out@) =~= before.take(pos as int).push(lv[i as int]) + before.skip(pos as int));
        i += 1;
    }
    assert(lv.take(lines.len() as int) =~= lv);
    out
}

/// No element satisfies `p`: the count is zero.
pub proof fn lemma_count_where_none<A>(s: Seq<A>, p: spec_fn(A) -> bool)
    requires
        forall|j: int| 0 <= j < s.len() ==> !p(#[trigger] s[j]),
    ensures
        count_where(s, p) == 0,
    decreases s.len(),
{
    if s.len() > 0 {
        assert forall|j: int| 0 <= j < s.drop_last().len() implies !p(#[trigger] s.drop_last()[j]) by {
            assert(s.drop_last()[j] == s[j]);
        }
        lemma_count_where_none(s.drop_last(), p);
    }
}

/// Exactly the element at `i` satisfies `p`: the count is one.
pub proof fn lemma_count_where_single<A>(s: Seq<A>, p: spec_fn(A) -> bool, i: int)
    requires
        0 <= i < s.len(),
        p(s[i]),
        forall|j: int| 0 <= j < s.len() && j != i ==> !p(#[trigger] s[j]),
    ensures
        count_where(s, p) == 1,
    decreases s.len(),
{
    let d = s.drop_last();
    if i == s.len() - 1 {
        assert forall|j: int| 0 <= j < d.len() implies !p(#[trigger] d[j]) by {
            assert(d[j] == s[j]);
        }
        lemma_count_where_none(d, p);
    } else {
        assert forall|j: int| 0 <= j < d.len() && j != i implies !p(#[trigger] d[j]) by {
            assert(d[j] == s[j]);
        }
        assert(d[i] == s[i]);
        lemma_count_where_single(d, p, i);
    }
}

} // verus!
