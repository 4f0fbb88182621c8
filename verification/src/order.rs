//! The order of strings, and sorting by it.

use crate::text::chars_of;
use vstd::prelude::*;
use vstd::relations::{sorted_by, total_ordering};
use vstd::seq_lib::{lemma_sorted_unique, to_multiset_build, to_multiset_insert, to_multiset_len};

verus! {

/// `a` comes before `b`, or is `b`, in the lexicographic order of their
/// characters: the order in which strings sort.
pub open spec fn lex_le(a: Seq<char>, b: Seq<char>) -> bool
    decreases a.len(),
{
    if a.len() == 0 {
        true
    } else if b.len() == 0 {
        false
    } else if a[0] != b[0] {
        a[0] < b[0]
    } else {
        lex_le(a.drop_first(), b.drop_first())
    }
}

/// `lex_le` as a relation.
pub open spec fn lex_order() -> spec_fn(Seq<char>, Seq<char>) -> bool {
    |a: Seq<char>, b: Seq<char>| lex_le(a, b)
}

/// The texts of `s` in lexicographic order.
pub open spec fn sorted_texts(s: Seq<Seq<char>>) -> Seq<Seq<char>> {
    s.sort_by(lex_order())
}

proof fn lemma_lex_reflexive(a: Seq<char>)
    ensures
        lex_le(a, a),
    decreases a.len(),
{
    if a.len() > 0 {
        lemma_lex_reflexive(a.drop_first());
    }
}

proof fn lemma_lex_antisymmetric(a: Seq<char>, b: Seq<char>)
    requires
        lex_le(a, b),
        lex_le(b, a),
    ensures
        a == b,
    decreases a.len(),
{
    if a.len() > 0 && b.len() > 0 {
        lemma_lex_antisymmetric(a.drop_first(), b.drop_first());
        assert(a =~= seq![a[0]] + a.drop_first());
    }
}

proof fn lemma_lex_transitive(a: Seq<char>, b: Seq<char>, c: Seq<char>)
    requires
        lex_le(a, b),
        lex_le(b, c),
    ensures
        lex_le(a, c),
    decreases a.len(),
{
    if a.len() > 0 && a[0] == b[0] && b[0] == c[0] {
        lemma_lex_transitive(a.drop_first(), b.drop_first(), c.drop_first());
    }
}

proof fn lemma_lex_connected(a: Seq<char>, b: Seq<char>)
    ensures
        lex_le(a, b) || lex_le(b, a),
    decreases a.len(),
{
    if a.len() > 0 && b.len() > 0 && a[0] == b[0] {
        lemma_lex_connected(a.drop_first(), b.drop_first());
    }
}

/// The lexicographic order is a total order.
pub proof fn lemma_lex_total_ordering()
    ensures
        total_ordering(lex_order()),
{
    let r = lex_order();
    assert forall|x: Seq<char>| #[trigger] r(x, x) by {
        lemma_lex_reflexive(x);
    }
    assert forall|x: Seq<char>, y: Seq<char>| #[trigger] r(x, y) && #[trigger] r(y, x) implies x
        == y by {
        lemma_lex_antisymmetric(x, y);
    }
    assert forall|x: Seq<char>, y: Seq<char>, z: Seq<char>| #[trigger]
        r(x, y) && #[trigger] r(y, z) implies r(x, z) by {
        lemma_lex_transitive(x, y, z);
    }
    assert forall|x: Seq<char>, y: Seq<char>| #[trigger] r(x, y) || #[trigger] r(y, x) by {
        lemma_lex_connected(x, y);
    }
}

/// Sorting reorders and does no more: the result is in order and holds each
/// text as often as `s` does.
pub proof fn lemma_sorted_texts(s: Seq<Seq<char>>)
    ensures
        sorted_by(sorted_texts(s), lex_order()),
        sorted_texts(s).to_multiset() == s.to_multiset(),
        sorted_texts(s).len() == s.len(),
{
    lemma_lex_total_ordering();
    s.lemma_sort_by_ensures(lex_order());
    to_multiset_len(s);
    to_multiset_len(sorted_texts(s));
}

/// Two lists of the same texts, in whatever order, sort to the same list.
pub proof fn lemma_sorted_texts_of_permutation(s: Seq<Seq<char>>, t: Seq<Seq<char>>)
    requires
        s.to_multiset() == t.to_multiset(),
    ensures
        sorted_texts(s) == sorted_texts(t),
{
    lemma_lex_total_ordering();
    lemma_sorted_texts(s);
    lemma_sorted_texts(t);
    lemma_sorted_unique(sorted_texts(s), sorted_texts(t), lex_order());
}

/// Equal prefixes do not decide the order.
proof fn lemma_lex_skip(a: Seq<char>, b: Seq<char>, k: int)
    requires
        0 <= k <= a.len(),
        k <= b.len(),
        a.take(k) == b.take(k),
    ensures
        lex_le(a, b) == lex_le(a.skip(k), b.skip(k)),
    decreases k,
{
    if k == 0 {
        assert(a.skip(0) =~= a);
        assert(b.skip(0) =~= b);
    } else {
        assert(a.take(k)[0] == a[0]);
        assert(a.drop_first().take(k - 1) =~= a.take(k).drop_first());
        assert(b.drop_first().take(k - 1) =~= b.take(k).drop_first());
        lemma_lex_skip(a.drop_first(), b.drop_first(), k - 1);
        assert(a.drop_first().skip(k - 1) =~= a.skip(k));
        assert(b.drop_first().skip(k - 1) =~= b.skip(k));
    }
}

/// Whether `a` comes before `b`, or is `b`.
pub fn text_le(a: &str, b: &str) -> (r: bool)
    ensures
        r == lex_le(a@, b@),
{
    let x = chars_of(a);
    let y = chars_of(b);
    let mut i: usize = 0;
    while i < x.len() && i < y.len() && x[i] == y[i]
        invariant
            i <= x.len(),
            i <= y.len(),
            x@.take(i as int) == y@.take(i as int),
        decreases x.len() - i,
    {
        i = i + 1;
    }
    proof {
        lemma_lex_skip(x@, y@, i as int);
    }
    if i == x.len() {
        true
    } else if i == y.len() {
        false
    } else {
        x[i] < y[i]
    }
}

/// The strings of `items` in lexicographic order.
pub fn sort_texts(items: &Vec<String>) -> (out: Vec<String>)
    ensures
        out.deep_view() == sorted_texts(items.deep_view()),
{
    let ghost source = items.deep_view();
    let mut out: Vec<String> = Vec::new();
    let mut i: usize = 0;
    proof {
        lemma_lex_total_ordering();
        assert(out.deep_view() =~= Seq::<Seq<char>>::empty());
        assert(source.take(0) =~= Seq::<Seq<char>>::empty());
    }
    while i < items.len()
        invariant
            i <= items.len(),
            source == items.deep_view(),
            total_ordering(lex_order()),
            sorted_by(out.deep_view(), lex_order()),
            out.deep_view().to_multiset() == source.take(i as int).to_multiset(),
        decreases items.len() - i,
    {
        let ghost before = out.deep_view();
        let ghost x = items[i as int]@;
        let mut p: usize = 0;
        while p < out.len() && text_le(out[p].as_str(), items[i].as_str())
            invariant
                p <= out.len(),
                i < items.len(),
                before == out.deep_view(),
                x == items[i as int]@,
                forall|j: int| 0 <= j < p ==> lex_le(#[trigger] before[j], x),
            decreases out.len() - p,
        {
            p = p + 1;
        }
        out.insert(p, items[i].clone());
        proof {
            let after = out.deep_view();
            assert(after =~= before.insert(p as int, x));
            let r = lex_order();
            assert forall|j: int, k: int| 0 <= j < k < after.len() implies #[trigger] r(
                after[j],
                after[k],
            ) by {
                if j == p {
                    assert(r(x, before[p as int]) || r(before[p as int], x));
                    assert(r(x, before[p as int]) && r(before[p as int], before[k - 1]) ==> r(
                        x,
                        before[k - 1],
                    ));
                }
            }
            to_multiset_insert(before, p as int, x);
            assert(source.take(i + 1) =~= source.take(i as int).push(x));
            to_multiset_build(source.take(i as int), x);
        }
        i = i + 1;
    }
    proof {
        assert(source.take(i as int) =~= source);
        lemma_sorted_texts(source);
        lemma_sorted_unique(out.deep_view(), sorted_texts(source), lex_order());
    }
    out
}

} // verus!
