//! The grammar of fixture stems.
//!
//! A stem is `from_block ["+" block_count] ["w" filter_name]`: the first block
//! of the range, the number of blocks that follow it, and the name of the
//! filter. Both numbers are decimal; `block_count` is at least 1 and has no
//! leading zero. The name is everything after the first `w`.

use crate::decimal::{all_digits, decimal_text, is_digit, lemma_decimal_text, parse_decimal};
use crate::text::{first_index, lemma_first_index, lemma_first_index_is_first};
use vstd::prelude::*;

verus! {

/// The part of a stem before its first `w`: the block range.
pub open spec fn stem_head(stem: Seq<char>) -> Seq<char> {
    stem.take(first_index(stem, 'w'))
}

/// The part of a stem after its first `w`: the filter name. A stem without `w`
/// has none; a stem that ends in `w` has the empty name.
pub open spec fn stem_name(stem: Seq<char>) -> Option<Seq<char>> {
    if first_index(stem, 'w') < stem.len() {
        Some(stem.skip(first_index(stem, 'w') + 1))
    } else {
        None
    }
}

/// The number and the name that `<number>[w<name>]` spells.
pub open spec fn tail_of(tail: Seq<char>) -> Option<(u64, Option<Seq<char>>)> {
    match parse_decimal(stem_head(tail)) {
        Some(number) => Some((number, stem_name(tail))),
        None => None,
    }
}

/// The block count that `s` spells: a decimal number without a leading zero,
/// hence at least 1.
pub open spec fn parse_count(s: Seq<char>) -> Option<u64> {
    if s.len() > 0 && s[0] != '0' {
        parse_decimal(s)
    } else {
        None
    }
}

/// The first and the last block that `from_block ["+" block_count]` spells.
/// The last block is the first plus the count, and must fit in 64 bits.
pub open spec fn parse_range(head: Seq<char>) -> Option<(u64, u64)> {
    let plus = first_index(head, '+');
    if plus == head.len() {
        match parse_decimal(head) {
            Some(from_block) => Some((from_block, from_block)),
            None => None,
        }
    } else {
        match (parse_decimal(head.take(plus)), parse_count(head.skip(plus + 1))) {
            (Some(from_block), Some(block_count)) => if from_block + block_count <= u64::MAX {
                Some((from_block, (from_block + block_count) as u64))
            } else {
                None
            },
            _ => None,
        }
    }
}

/// The text of a block range: the first block alone for a range of one block,
/// else the first block, `+` and the number of blocks after it.
pub open spec fn range_text(from_block: u64, to_block: u64) -> Seq<char>
    recommends
        from_block <= to_block,
{
    if to_block == from_block {
        decimal_text(from_block as nat)
    } else {
        decimal_text(from_block as nat) + seq!['+'] + decimal_text((to_block - from_block) as nat)
    }
}

/// A sequence of digits holds no `c` that is not a digit.
pub proof fn lemma_digits_without(s: Seq<char>, c: char)
    requires
        all_digits(s),
        !is_digit(c),
    ensures
        first_index(s, c) == s.len(),
{
    lemma_first_index(s, c, s.len() as int);
}

/// Skipping characters before the first `c` moves the first `c` by as much.
pub proof fn lemma_first_index_skip(s: Seq<char>, c: char, k: int)
    requires
        0 <= k <= first_index(s, c),
    ensures
        first_index(s.skip(k), c) == first_index(s, c) - k,
{
    lemma_first_index_is_first(s, c);
    let t = s.skip(k);
    lemma_first_index(t, c, first_index(s, c) - k);
}

/// The text of a range spells that range, and holds no `w`.
pub proof fn lemma_range_text(from_block: u64, to_block: u64)
    requires
        from_block <= to_block,
    ensures
        parse_range(range_text(from_block, to_block)) == Some((from_block, to_block)),
        first_index(range_text(from_block, to_block), 'w') == range_text(
            from_block,
            to_block,
        ).len(),
{
    let first = decimal_text(from_block as nat);
    lemma_decimal_text(from_block as nat);
    if to_block == from_block {
        lemma_digits_without(first, '+');
        lemma_digits_without(first, 'w');
    } else {
        let count = decimal_text((to_block - from_block) as nat);
        lemma_decimal_text((to_block - from_block) as nat);
        let text = first + seq!['+'] + count;
        lemma_first_index(text, '+', first.len() as int);
        assert(text.take(first.len() as int) =~= first);
        assert(text.skip(first.len() as int + 1) =~= count);
        assert forall|j: int| 0 <= j < text.len() implies text[j] != 'w' by {
            if j > first.len() {
                assert(text[j] == count[j - first.len() - 1]);
            }
        }
        lemma_first_index(text, 'w', text.len() as int);
    }
}

} // verus!
