//! Strings as sequences of characters.

use vstd::prelude::*;

verus! {

/// `String::push` appends one character.
pub assume_specification[ String::push ](s: &mut String, c: char)
    ensures
        final(s)@ == old(s)@.push(c),
;

/// The index of the first `c` in `s`, or the length of `s` where it has none.
pub open spec fn first_index(s: Seq<char>, c: char) -> int
    decreases s.len(),
{
    if s.len() == 0 || s[0] == c {
        0
    } else {
        1 + first_index(s.drop_first(), c)
    }
}

/// The index of the last `c` in `s`, or -1 where it has none.
pub open spec fn last_index(s: Seq<char>, c: char) -> int
    decreases s.len(),
{
    if s.len() == 0 {
        -1
    } else if s.last() == c {
        s.len() - 1
    } else {
        last_index(s.drop_last(), c)
    }
}

/// `first_index` is the one position before which `s` has no `c` and which
/// holds `c` or ends `s`.
pub proof fn lemma_first_index(s: Seq<char>, c: char, k: int)
    requires
        0 <= k <= s.len(),
        forall|j: int| 0 <= j < k ==> s[j] != c,
        k < s.len() ==> s[k] == c,
    ensures
        first_index(s, c) == k,
    decreases s.len(),
{
    if s.len() > 0 && s[0] != c {
        lemma_first_index(s.drop_first(), c, k - 1);
    }
}

/// What `first_index` finds.
pub proof fn lemma_first_index_is_first(s: Seq<char>, c: char)
    ensures
        0 <= first_index(s, c) <= s.len(),
        forall|j: int| 0 <= j < first_index(s, c) ==> s[j] != c,
        first_index(s, c) < s.len() ==> s[first_index(s, c)] == c,
    decreases s.len(),
{
    if s.len() > 0 && s[0] != c {
        let rest = s.drop_first();
        lemma_first_index_is_first(rest, c);
        assert forall|j: int| 0 <= j < first_index(s, c) implies s[j] != c by {
            if j > 0 {
                assert(rest[j - 1] == s[j]);
            }
        }
    }
}

/// `last_index` is the one position after which `s` has no `c` and which
/// holds `c` or lies before `s`.
pub proof fn lemma_last_index(s: Seq<char>, c: char, k: int)
    requires
        -1 <= k < s.len(),
        forall|j: int| k < j < s.len() ==> s[j] != c,
        0 <= k ==> s[k] == c,
    ensures
        last_index(s, c) == k,
    decreases s.len(),
{
    if s.len() > 0 && s.last() != c {
        lemma_last_index(s.drop_last(), c, k);
    }
}

/// The characters of `s`, in order.
pub fn chars_of(s: &str) -> (out: Vec<char>)
    ensures
        out@ == s@,
{
    let mut out: Vec<char> = Vec::new();
    for c in it: s.chars()
        invariant
            out@ == it.seq().take(it.index() as int),
            it.seq() == s@,
    {
        out.push(c);
    }
    out
}

/// The string made of the characters `cs[from..to]`.
pub fn string_of(cs: &Vec<char>, from: usize, to: usize) -> (out: String)
    requires
        from <= to <= cs.len(),
    ensures
        out@ == cs@.subrange(from as int, to as int),
{
    let mut out = String::new();
    let mut i: usize = from;
    while i < to
        invariant
            from <= i <= to <= cs.len(),
            out@ == cs@.subrange(from as int, i as int),
        decreases to - i,
    {
        out.push(cs[i]);
        i = i + 1;
    }
    out
}

/// The index of the first `c` among `cs[..to]`, or `to` where there is none.
pub fn find_char(cs: &Vec<char>, to: usize, c: char) -> (r: usize)
    requires
        to <= cs.len(),
    ensures
        r <= to,
        r == first_index(cs@.take(to as int), c),
        forall|j: int| 0 <= j < r ==> cs[j] != c,
        r < to ==> cs[r as int] == c,
{
    let mut i: usize = 0;
    while i < to && cs[i] != c
        invariant
            i <= to <= cs.len(),
            forall|j: int| 0 <= j < i ==> cs[j] != c,
        decreases to - i,
    {
        i = i + 1;
    }
    proof {
        lemma_first_index(cs@.take(to as int), c, i as int);
    }
    i
}

/// The index of the last `c` among `cs[from..to]`, if there is one.
pub fn rfind_char(cs: &Vec<char>, from: usize, to: usize, c: char) -> (r: Option<usize>)
    requires
        from <= to <= cs.len(),
    ensures
        match r {
            Some(k) => from <= k < to && k - from == last_index(
                cs@.subrange(from as int, to as int),
                c,
            ),
            None => last_index(cs@.subrange(from as int, to as int), c) == -1,
        },
{
    let mut i: usize = to;
    while i > from && cs[i - 1] != c
        invariant
            from <= i <= to <= cs.len(),
            forall|j: int| i <= j < to ==> cs[j] != c,
        decreases i,
    {
        i = i - 1;
    }
    proof {
        lemma_last_index(cs@.subrange(from as int, to as int), c, i - from - 1);
    }
    if i == from {
        None
    } else {
        Some(i - 1)
    }
}

} // verus!
