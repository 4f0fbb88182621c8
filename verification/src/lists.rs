//! Lists of strings: membership, counting and the removal of repetitions.

use vstd::multiset::{lemma_insert_increases_count_by_1, lemma_insert_other_elements_unchanged};
use vstd::prelude::*;
use vstd::seq_lib::to_multiset_build;

verus! {

/// The elements of `s` without repetitions, each at the place where it first
/// occurs.
pub open spec fn distinct<T>(s: Seq<T>) -> Seq<T>
    decreases s.len(),
{
    if s.len() == 0 {
        Seq::empty()
    } else {
        let before = distinct(s.drop_last());
        if before.contains(s.last()) {
            before
        } else {
            before.push(s.last())
        }
    }
}

/// How often `x` occurs in `s`.
pub open spec fn occurrences<T>(s: Seq<T>, x: T) -> nat {
    s.to_multiset().count(x)
}

/// `distinct` repeats nothing and holds the elements of its argument, no more
/// and no fewer.
pub proof fn lemma_distinct<T>(s: Seq<T>)
    ensures
        distinct(s).no_duplicates(),
        forall|x: T| #[trigger] distinct(s).contains(x) <==> s.contains(x),
    decreases s.len(),
{
    if s.len() > 0 {
        let before = distinct(s.drop_last());
        lemma_distinct(s.drop_last());
        assert forall|x: T| #[trigger] distinct(s).contains(x) <==> s.contains(x) by {
            if s.contains(x) {
                let i = choose|i: int| 0 <= i < s.len() && s[i] == x;
                if i < s.len() - 1 {
                    assert(s.drop_last()[i] == x);
                    assert(s.drop_last().contains(x));
                    assert(before.contains(x));
                    let j = choose|j: int| 0 <= j < before.len() && before[j] == x;
                    assert(distinct(s)[j] == x);
                } else {
                    if !before.contains(x) {
                        assert(distinct(s)[before.len() as int] == x);
                    }
                }
            }
            if distinct(s).contains(x) {
                let j = choose|j: int| 0 <= j < distinct(s).len() && distinct(s)[j] == x;
                if j < before.len() {
                    assert(before[j] == x);
                    assert(before.contains(x));
                    assert(s.drop_last().contains(x));
                    let i = choose|i: int| 0 <= i < s.drop_last().len() && s.drop_last()[i] == x;
                    assert(s[i] == x);
                } else {
                    assert(s[s.len() - 1] == x);
                }
            }
        }
    }
}

/// Whether `list` holds the string `x`.
pub fn contains_text(list: &Vec<String>, x: &str) -> (r: bool)
    ensures
        r == list.deep_view().contains(x@),
{
    let mut i: usize = 0;
    while i < list.len()
        invariant
            i <= list.len(),
            forall|j: int| 0 <= j < i ==> list.deep_view()[j] != x@,
        decreases list.len() - i,
    {
        assert(list.deep_view()[i as int] == list[i as int]@);
        if text_eq(list[i].as_str(), x) {
            return true;
        }
        i = i + 1;
    }
    false
}

/// Whether two strings hold the same characters.
pub fn text_eq(a: &str, b: &str) -> (r: bool)
    ensures
        r == (a@ == b@),
{
    let x = String::from_str(a);
    let y = String::from_str(b);
    x == y
}

/// How often the string `x` occurs in `list`.
pub fn count_text(list: &Vec<String>, x: &str) -> (r: usize)
    ensures
        r == occurrences(list.deep_view(), x@),
{
    let ghost s = list.deep_view();
    let mut n: usize = 0;
    let mut i: usize = 0;
    proof {
        assert(s.take(0).to_multiset().count(x@) == 0) by {
            broadcast use vstd::seq_lib::to_multiset_len;
            broadcast use vstd::multiset::group_multiset_axioms;

            assert(s.take(0).to_multiset().len() == 0);
        }
    }
    while i < list.len()
        invariant
            i <= list.len(),
            s == list.deep_view(),
            n <= i,
            n == occurrences(s.take(i as int), x@),
        decreases list.len() - i,
    {
        proof {
            assert(s.take(i + 1) =~= s.take(i as int).push(s[i as int]));
            to_multiset_build(s.take(i as int), s[i as int]);
            lemma_insert_increases_count_by_1(s.take(i as int).to_multiset(), s[i as int]);
            lemma_insert_other_elements_unchanged(
                s.take(i as int).to_multiset(),
                s[i as int],
                x@,
            );
        }
        if text_eq(list[i].as_str(), x) {
            n = n + 1;
        }
        i = i + 1;
    }
    proof {
        assert(s.take(i as int) =~= s);
    }
    n
}

/// The strings of `list` without repetitions, each at the place where it
/// first occurs.
pub fn distinct_texts(list: &Vec<String>) -> (out: Vec<String>)
    ensures
        out.deep_view() == distinct(list.deep_view()),
{
    let ghost s = list.deep_view();
    let mut out: Vec<String> = Vec::new();
    let mut i: usize = 0;
    while i < list.len()
        invariant
            i <= list.len(),
            s == list.deep_view(),
            out.deep_view() == distinct(s.take(i as int)),
        decreases list.len() - i,
    {
        proof {
            assert(s.take(i + 1).drop_last() =~= s.take(i as int));
        }
        if !contains_text(&out, list[i].as_str()) {
            out.push(list[i].clone());
        }
        i = i + 1;
    }
    proof {
        assert(s.take(i as int) =~= s);
    }
    out
}

/// A copy of `list`.
pub fn clone_texts(list: &Vec<String>) -> (out: Vec<String>)
    ensures
        out.deep_view() == list.deep_view(),
{
    let mut out: Vec<String> = Vec::new();
    let mut i: usize = 0;
    while i < list.len()
        invariant
            i <= list.len(),
            out.len() == i,
            forall|j: int| 0 <= j < i ==> out[j]@ == list[j]@,
        decreases list.len() - i,
    {
        out.push(list[i].clone());
        i = i + 1;
    }
    out
}

/// Whether two lists hold the same strings in the same order.
pub fn texts_eq(a: &Vec<String>, b: &Vec<String>) -> (r: bool)
    ensures
        r == (a.deep_view() == b.deep_view()),
{
    if a.len() != b.len() {
        assert(a.deep_view().len() != b.deep_view().len());
        return false;
    }
    let mut i: usize = 0;
    while i < a.len()
        invariant
            i <= a.len(),
            a.len() == b.len(),
            forall|j: int| 0 <= j < i ==> a[j]@ == b[j]@,
        decreases a.len() - i,
    {
        if !text_eq(a[i].as_str(), b[i].as_str()) {
            assert(a.deep_view()[i as int] != b.deep_view()[i as int]);
            return false;
        }
        i = i + 1;
    }
    proof {
        assert(a.deep_view() =~= b.deep_view());
    }
    true
}

/// Whether `lists` holds the list `x`.
pub fn contains_texts(lists: &Vec<Vec<String>>, x: &Vec<String>) -> (r: bool)
    ensures
        r == lists.deep_view().contains(x.deep_view()),
{
    let mut i: usize = 0;
    while i < lists.len()
        invariant
            i <= lists.len(),
            forall|j: int| 0 <= j < i ==> lists.deep_view()[j] != x.deep_view(),
        decreases lists.len() - i,
    {
        assert(lists.deep_view()[i as int] == lists[i as int].deep_view());
        if texts_eq(&lists[i], x) {
            return true;
        }
        i = i + 1;
    }
    false
}

} // verus!
