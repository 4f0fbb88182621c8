//! What a fixture's name says of the query that produced it.

use crate::decimal::{parse_u64, push_decimal};
use crate::error::QueryError;
use crate::felt::{felt_from_hex, hex_felt, Identifier};
use crate::json::{
    items_of, members, object_get, parse_object, parsed, text_of, value_as_array, value_as_str,
};
use crate::stem::{
    lemma_first_index_skip, lemma_range_text, parse_range, range_text, stem_head, stem_name,
    tail_of,
};
use crate::text::{
    chars_of, find_char, last_index, lemma_first_index, lemma_first_index_is_first,
    lemma_last_index, rfind_char, string_of,
};
use vstd::prelude::*;

verus! {

/// The block range and the optional filter name that a fixture's stem encodes.
#[derive(Debug, Clone, PartialEq, Eq)]
pub struct FilterSeed {
    pub from_block: u64,
    pub to_block: u64,
    pub with_name: Option<String>,
}

/// What a `FilterSeed` holds, as mathematical values.
pub struct FilterSeedView {
    pub from_block: u64,
    pub to_block: u64,
    pub with_name: Option<Seq<char>>,
}

impl View for FilterSeed {
    type V = FilterSeedView;

    open spec fn view(&self) -> FilterSeedView {
        FilterSeedView {
            from_block: self.from_block,
            to_block: self.to_block,
            with_name: self.with_name.deep_view(),
        }
    }
}

/// The seed that a stem spells, where it matches the stem grammar.
pub open spec fn decode_stem(stem: Seq<char>) -> Option<FilterSeedView> {
    match parse_range(stem_head(stem)) {
        Some((from_block, to_block)) => Some(
            FilterSeedView { from_block, to_block, with_name: stem_name(stem) },
        ),
        None => None,
    }
}

/// The stem of a seed: its block range, then `w` and the filter name where it
/// has one.
pub open spec fn encode_stem(seed: FilterSeedView) -> Seq<char>
    recommends
        seed.from_block <= seed.to_block,
{
    match seed.with_name {
        Some(name) => range_text(seed.from_block, seed.to_block) + seq!['w'] + name,
        None => range_text(seed.from_block, seed.to_block),
    }
}

/// The name of the file that holds a seed's filter descriptor: its block
/// range, `f`, the filter name and `.json`. A seed without a filter name has
/// no descriptor.
pub open spec fn filter_basename(seed: FilterSeedView) -> Option<Seq<char>>
    recommends
        seed.from_block <= seed.to_block,
{
    match seed.with_name {
        Some(name) => Some(range_text(seed.from_block, seed.to_block) + seq!['f'] + name + ".json"@),
        None => None,
    }
}

/// A path up to the end of its last component: without the separators `/`
/// and the components `.` that follow it. Neither changes what a path names.
pub open spec fn trimmed(path: Seq<char>) -> Seq<char>
    decreases path.len(),
{
    if path.len() > 0 && path.last() == '/' {
        trimmed(path.drop_last())
    } else if path.len() >= 2 && path.last() == '.' && path[path.len() - 2] == '/' {
        trimmed(path.drop_last())
    } else {
        path
    }
}

/// The last component of a path: what follows the last `/` before the end of
/// the last component.
pub open spec fn file_name(path: Seq<char>) -> Seq<char> {
    trimmed(path).skip(last_index(trimmed(path), '/') + 1)
}

/// The directory part of a path, to which a file name can be appended: empty
/// for a path of one component, else what stands before the last component,
/// up to the end of the component before it, and `/`.
pub open spec fn directory(path: Seq<char>) -> Seq<char> {
    let slash = last_index(trimmed(path), '/');
    if slash < 0 {
        Seq::empty()
    } else {
        trimmed(trimmed(path).take(slash + 1)) + seq!['/']
    }
}

/// The stem of the file that a path names: its last component up to the last
/// `.`, or all of it where it has no `.` after its first character. A path
/// whose last component is empty, `.` or `..` names no file.
pub open spec fn file_stem(path: Seq<char>) -> Option<Seq<char>> {
    let name = file_name(path);
    if name.len() == 0 || name == seq!['.'] || name == seq!['.', '.'] {
        None
    } else if last_index(name, '.') <= 0 {
        Some(name)
    } else {
        Some(name.take(last_index(name, '.')))
    }
}

/// Only the last component of a path matters to its name: behind a directory
/// part, which is empty or ends in `/`, a component is the file name, and the
/// directory is that part up to the end of its own last component, and `/`.
pub proof fn lemma_file_name(dir: Seq<char>, name: Seq<char>)
    requires
        dir.len() == 0 || dir.last() == '/',
        name.len() > 0,
        !name.contains('/'),
        name != seq!['.'],
    ensures
        file_name(dir + name) == name,
        directory(dir + name) == if dir.len() == 0 {
            dir
        } else {
            trimmed(dir) + seq!['/']
        },
{
    let path = dir + name;
    assert(path.last() == name.last());
    assert(name.contains(name.last()));
    if name.len() >= 2 {
        assert(path[path.len() - 2] == name[name.len() - 2]);
        assert(name.contains(name[name.len() - 2]));
    } else {
        assert(name =~= seq![name[0]]);
    }
    assert(trimmed(path) == path);
    assert forall|j: int| dir.len() - 1 < j < path.len() implies path[j] != '/' by {
        assert(path[j] == name[j - dir.len()]);
        assert(name.contains(name[j - dir.len()]));
    }
    lemma_last_index(path, '/', dir.len() - 1);
    assert(path.skip(dir.len() as int) =~= name);
    assert(path.take(dir.len() as int) =~= dir);
}

/// Neither the directory nor the extension of a fixture matters to its seed:
/// a file name made of a stem, `.` and an extension without `.` has the seed
/// that the stem spells, in whatever directory it lies.
pub proof fn lemma_seed_of_path(dir: Seq<char>, stem: Seq<char>, extension: Seq<char>)
    requires
        dir.len() == 0 || dir.last() == '/',
        stem.len() > 0,
        !stem.contains('/'),
        !extension.contains('/'),
        !extension.contains('.'),
        stem + seq!['.'] + extension != seq!['.', '.'],
    ensures
        file_stem(dir + (stem + seq!['.'] + extension)) == Some(stem),
        seed_of_path(dir + (stem + seq!['.'] + extension)) == match decode_stem(stem) {
            Some(seed) => Ok::<FilterSeedView, QueryError>(seed),
            None => Err(QueryError::MalformedStem),
        },
{
    let name = stem + seq!['.'] + extension;
    assert forall|j: int| 0 <= j < name.len() implies name[j] != '/' by {
        if j < stem.len() {
            assert(stem.contains(stem[j]));
        } else if j > stem.len() {
            assert(extension.contains(extension[j - stem.len() - 1]));
        }
    }
    assert(name[stem.len() as int] == '.');
    lemma_file_name(dir, name);
    assert forall|j: int| stem.len() < j < name.len() implies name[j] != '.' by {
        assert(extension.contains(extension[j - stem.len() - 1]));
    }
    lemma_last_index(name, '.', stem.len() as int);
    assert(name.take(stem.len() as int) =~= stem);
}

/// A separator or a component `.` at the end of a path changes neither the
/// file that it names nor its directory.
pub proof fn lemma_trailing_separator(path: Seq<char>)
    ensures
        file_stem(path + seq!['/']) == file_stem(path),
        file_stem(path + seq!['/', '.']) == file_stem(path),
        directory(path + seq!['/']) == directory(path),
        directory(path + seq!['/', '.']) == directory(path),
{
    let slash = path + seq!['/'];
    let dot = path + seq!['/', '.'];
    assert(slash.drop_last() =~= path);
    assert(dot.drop_last() =~= slash);
    assert(dot[dot.len() - 2] == '/');
    assert(trimmed(slash) == trimmed(path));
    assert(trimmed(dot) == trimmed(slash));
}

/// The seed of the fixture at `path`.
pub open spec fn seed_of_path(path: Seq<char>) -> Result<FilterSeedView, QueryError> {
    match file_stem(path) {
        None => Err(QueryError::InvalidFixturePath),
        Some(stem) => match decode_stem(stem) {
            Some(seed) => Ok(seed),
            None => Err(QueryError::MalformedStem),
        },
    }
}

/// Decoding inverts encoding: the stem of a seed spells that seed, whatever
/// its filter name.
pub proof fn lemma_decode_encode(seed: FilterSeedView)
    requires
        seed.from_block <= seed.to_block,
    ensures
        decode_stem(encode_stem(seed)) == Some(seed),
{
    let range = range_text(seed.from_block, seed.to_block);
    lemma_range_text(seed.from_block, seed.to_block);
    lemma_first_index_is_first(range, 'w');
    match seed.with_name {
        Some(name) => {
            let stem = range + seq!['w'] + name;
            lemma_first_index(stem, 'w', range.len() as int);
            assert(stem.take(range.len() as int) =~= range);
            assert(stem.skip(range.len() as int + 1) =~= name);
        },
        None => {
            assert(range.take(range.len() as int) =~= range);
        },
    }
}

/// The alternative sets of a key filter, as mathematical values.
pub open spec fn key_rows(keys: Seq<Vec<Identifier>>) -> Seq<Seq<Identifier>> {
    Seq::new(keys.len(), |i: int| keys[i]@)
}

/// The address that a filter descriptor asks for: none where it has no
/// member `address`. A member `address` that is not a string, or not a field
/// element in hexadecimal, is an invalid address.
pub open spec fn descriptor_address(object: Map<Seq<char>, serde_json::Value>) -> Result<
    Option<Identifier>,
    QueryError,
> {
    if object.contains_key("address"@) {
        match text_of(object["address"@]) {
            None => Err(QueryError::InvalidAddress),
            Some(hex) => match hex_felt(hex) {
                Some(felt) => Ok(Some(felt)),
                None => Err(QueryError::InvalidAddress),
            },
        }
    } else {
        Ok(None)
    }
}

/// The alternative set that a JSON array of hexadecimal strings spells. The
/// first element that is not a string, or not a field element, decides the
/// error.
pub open spec fn alternative_set(items: Seq<serde_json::Value>) -> Result<Seq<Identifier>, QueryError>
    decreases items.len(),
{
    if items.len() == 0 {
        Ok(Seq::empty())
    } else {
        match alternative_set(items.drop_last()) {
            Err(e) => Err(e),
            Ok(head) => match text_of(items.last()) {
                None => Err(QueryError::UnexpectedKeyType),
                Some(hex) => match hex_felt(hex) {
                    None => Err(QueryError::InvalidKey),
                    Some(felt) => Ok(head.push(felt)),
                },
            },
        }
    }
}

/// The key filter that the elements of a descriptor's `keys` spell: one
/// alternative set for each element, so that the set at a position of the
/// filter is the one written at that position. The first element that is not
/// an array, or whose alternative set is at fault, decides the error.
pub open spec fn key_filter(items: Seq<serde_json::Value>) -> Result<Seq<Seq<Identifier>>, QueryError>
    decreases items.len(),
{
    if items.len() == 0 {
        Ok(Seq::empty())
    } else {
        match key_filter(items.drop_last()) {
            Err(e) => Err(e),
            Ok(head) => match items_of(items.last()) {
                None => Err(QueryError::UnexpectedKeyType),
                Some(inner) => match alternative_set(inner) {
                    Err(e) => Err(e),
                    Ok(set) => Ok(head.push(set)),
                },
            },
        }
    }
}

/// An alternative set holds, at each position, the field element that the
/// string at that position spells.
pub proof fn lemma_alternative_set_positions(items: Seq<serde_json::Value>)
    requires
        alternative_set(items) is Ok,
    ensures
        alternative_set(items)->Ok_0.len() == items.len(),
        forall|i: int|
            0 <= i < items.len() ==> (#[trigger] text_of(items[i])) is Some && hex_felt(
                text_of(items[i])->0,
            ) == Some(alternative_set(items)->Ok_0[i]),
    decreases items.len(),
{
    if items.len() > 0 {
        lemma_alternative_set_positions(items.drop_last());
        assert forall|i: int| 0 <= i < items.len() implies (#[trigger] text_of(items[i])) is Some
            && hex_felt(text_of(items[i])->0) == Some(alternative_set(items)->Ok_0[i]) by {
            if i < items.len() - 1 {
                assert(items.drop_last()[i] == items[i]);
            }
        }
    }
}

/// A key filter is positional: it has one alternative set for each element of
/// `keys`, and the set at a position is the one written at that position.
pub proof fn lemma_key_filter_positions(items: Seq<serde_json::Value>)
    requires
        key_filter(items) is Ok,
    ensures
        key_filter(items)->Ok_0.len() == items.len(),
        forall|i: int|
            0 <= i < items.len() ==> (#[trigger] items_of(items[i])) is Some && alternative_set(
                items_of(items[i])->0,
            ) == Ok::<Seq<Identifier>, QueryError>(key_filter(items)->Ok_0[i]),
    decreases items.len(),
{
    if items.len() > 0 {
        lemma_key_filter_positions(items.drop_last());
        assert forall|i: int| 0 <= i < items.len() implies (#[trigger] items_of(items[i])) is Some
            && alternative_set(items_of(items[i])->0) == Ok::<Seq<Identifier>, QueryError>(
            key_filter(items)->Ok_0[i],
        ) by {
            if i < items.len() - 1 {
                assert(items.drop_last()[i] == items[i]);
            }
        }
    }
}

/// The key filter that a filter descriptor asks for: none where it has no
/// member `keys`. A member `keys` that is not an array has the wrong shape.
pub open spec fn descriptor_keys(object: Map<Seq<char>, serde_json::Value>) -> Result<
    Option<Seq<Seq<Identifier>>>,
    QueryError,
> {
    if object.contains_key("keys"@) {
        match items_of(object["keys"@]) {
            None => Err(QueryError::UnexpectedKeyType),
            Some(items) => match key_filter(items) {
                Err(e) => Err(e),
                Ok(keys) => Ok(Some(keys)),
            },
        }
    } else {
        Ok(None)
    }
}

/// The address and the key filter that a filter descriptor asks for. The
/// address is looked at before the keys.
pub open spec fn descriptor_filter(object: Map<Seq<char>, serde_json::Value>) -> Result<
    (Option<Identifier>, Option<Seq<Seq<Identifier>>>),
    QueryError,
> {
    match descriptor_address(object) {
        Err(e) => Err(e),
        Ok(address) => match descriptor_keys(object) {
            Err(e) => Err(e),
            Ok(keys) => Ok((address, keys)),
        },
    }
}

/// The address and the key filter of a query: none of either for a seed
/// without a filter name, else what the descriptor's text asks for.
pub open spec fn filter_of(named: bool, descriptor: Option<Seq<char>>) -> Result<
    (Option<Identifier>, Option<Seq<Seq<Identifier>>>),
    QueryError,
> {
    if !named {
        Ok((None, None))
    } else {
        match descriptor {
            None => Err(QueryError::MissingOrMalformedFilterFile),
            Some(text) => match parsed(text) {
                None => Err(QueryError::MissingOrMalformedFilterFile),
                Some(object) => descriptor_filter(object),
            },
        }
    }
}

/// The view of an optional descriptor text.
pub open spec fn descriptor_view(descriptor: Option<&str>) -> Option<Seq<char>> {
    match descriptor {
        Some(text) => Some(text@),
        None => None,
    }
}

/// The view of an optional key filter.
pub open spec fn keys_view(keys: Option<Vec<Vec<Identifier>>>) -> Option<Seq<Seq<Identifier>>> {
    match keys {
        Some(rows) => Some(key_rows(rows@)),
        None => None,
    }
}

/// Reads one alternative set out of the elements of a JSON array.
pub fn read_alternative_set(items: &Vec<serde_json::Value>) -> (r: Result<
    Vec<Identifier>,
    QueryError,
>)
    ensures
        match r {
            Ok(set) => alternative_set(items@) == Ok::<Seq<Identifier>, QueryError>(set@),
            Err(e) => alternative_set(items@) == Err::<Seq<Identifier>, QueryError>(e),
        },
{
    let mut set: Vec<Identifier> = Vec::new();
    let mut i: usize = 0;
    while i < items.len()
        invariant
            i <= items.len(),
            alternative_set(items@.take(i as int)) == Ok::<Seq<Identifier>, QueryError>(set@),
        decreases items.len() - i,
    {
        proof {
            assert(items@.take(i + 1).drop_last() =~= items@.take(i as int));
        }
        match value_as_str(&items[i]) {
            None => {
                proof {
                    lemma_alternative_set_fails(items@, i + 1);
                }
                return Err(QueryError::UnexpectedKeyType);
            },
            Some(hex) => match felt_from_hex(hex) {
                Err(_) => {
                    proof {
                        lemma_alternative_set_fails(items@, i + 1);
                    }
                    return Err(QueryError::InvalidKey);
                },
                Ok(felt) => {
                    set.push(felt);
                },
            },
        }
        i = i + 1;
    }
    proof {
        assert(items@.take(i as int) =~= items@);
    }
    Ok(set)
}

/// An error in a prefix of an alternative set is the error of the whole.
proof fn lemma_alternative_set_fails(items: Seq<serde_json::Value>, n: int)
    requires
        0 <= n <= items.len(),
        alternative_set(items.take(n)) is Err,
    ensures
        alternative_set(items) == alternative_set(items.take(n)),
    decreases items.len() - n,
{
    if n < items.len() {
        assert(items.take(n + 1).drop_last() =~= items.take(n));
        lemma_alternative_set_fails(items, n + 1);
    } else {
        assert(items.take(n) =~= items);
    }
}

/// An error in a prefix of a key filter is the error of the whole.
proof fn lemma_key_filter_fails(items: Seq<serde_json::Value>, n: int)
    requires
        0 <= n <= items.len(),
        key_filter(items.take(n)) is Err,
    ensures
        key_filter(items) == key_filter(items.take(n)),
    decreases items.len() - n,
{
    if n < items.len() {
        assert(items.take(n + 1).drop_last() =~= items.take(n));
        lemma_key_filter_fails(items, n + 1);
    } else {
        assert(items.take(n) =~= items);
    }
}

/// Reads a key filter out of the elements of a descriptor's `keys`.
pub fn read_key_filter(items: &Vec<serde_json::Value>) -> (r: Result<
    Vec<Vec<Identifier>>,
    QueryError,
>)
    ensures
        match r {
            Ok(keys) => key_filter(items@) == Ok::<Seq<Seq<Identifier>>, QueryError>(key_rows(keys@)),
            Err(e) => key_filter(items@) == Err::<Seq<Seq<Identifier>>, QueryError>(e),
        },
{
    let mut keys: Vec<Vec<Identifier>> = Vec::new();
    let mut i: usize = 0;
    proof {
        assert(key_rows(keys@) =~= Seq::<Seq<Identifier>>::empty());
    }
    while i < items.len()
        invariant
            i <= items.len(),
            key_filter(items@.take(i as int)) == Ok::<Seq<Seq<Identifier>>, QueryError>(key_rows(keys@)),
        decreases items.len() - i,
    {
        proof {
            assert(items@.take(i + 1).drop_last() =~= items@.take(i as int));
        }
        match value_as_array(&items[i]) {
            None => {
                proof {
                    lemma_key_filter_fails(items@, i + 1);
                }
                return Err(QueryError::UnexpectedKeyType);
            },
            Some(inner) => match read_alternative_set(inner) {
                Err(e) => {
                    proof {
                        lemma_key_filter_fails(items@, i + 1);
                    }
                    return Err(e);
                },
                Ok(set) => {
                    let ghost before = key_rows(keys@);
                    keys.push(set);
                    proof {
                        assert(key_rows(keys@) =~= before.push(set@));
                    }
                },
            },
        }
        i = i + 1;
    }
    proof {
        assert(items@.take(i as int) =~= items@);
    }
    Ok(keys)
}

/// The length of `cs[..to]` up to the end of its last component.
fn trimmed_len(cs: &Vec<char>, to: usize) -> (end: usize)
    requires
        to <= cs.len(),
    ensures
        end <= to,
        cs@.take(end as int) == trimmed(cs@.take(to as int)),
{
    let mut end: usize = to;
    while end > 0 && (cs[end - 1] == '/' || (end >= 2 && cs[end - 1] == '.' && cs[end - 2] == '/'))
        invariant
            end <= to <= cs.len(),
            trimmed(cs@.take(end as int)) == trimmed(cs@.take(to as int)),
        decreases end,
    {
        proof {
            assert(cs@.take(end as int).drop_last() =~= cs@.take(end - 1));
        }
        end = end - 1;
    }
    end
}

impl FilterSeed {
    /// The block range is in order: the invariant of a seed.
    pub open spec fn wf(&self) -> bool {
        self.from_block <= self.to_block
    }

    /// The seed of the fixture at the path `fixture`, read from the stem of its
    /// last component. Components are separated by `/`; separators and
    /// components `.` at the end of the path are passed over.
    pub fn load(fixture: &str) -> (r: Result<Self, QueryError>)
        ensures
            match r {
                Ok(seed) => seed.wf() && seed_of_path(fixture@) == Ok::<FilterSeedView, QueryError>(
                    seed@,
                ),
                Err(e) => seed_of_path(fixture@) == Err::<FilterSeedView, QueryError>(e),
            },
    {
        let cs = chars_of(fixture);
        let end = trimmed_len(&cs, cs.len());
        let start: usize = match rfind_char(&cs, 0, end, '/') {
            Some(slash) => slash + 1,
            None => 0,
        };
        let ghost name = file_name(fixture@);
        proof {
            assert(cs@.take(cs@.len() as int) =~= cs@);
            assert(cs@.subrange(0, end as int) =~= cs@.take(end as int));
            assert(name =~= cs@.subrange(start as int, end as int));
        }
        if start == end {
            return Err(QueryError::InvalidFixturePath);
        }
        if end - start == 1 && cs[start] == '.' {
            proof {
                assert(name =~= seq!['.']);
            }
            return Err(QueryError::InvalidFixturePath);
        }
        if end - start == 2 && cs[start] == '.' && cs[start + 1] == '.' {
            proof {
                assert(name =~= seq!['.', '.']);
            }
            return Err(QueryError::InvalidFixturePath);
        }
        proof {
            if name == seq!['.'] {
                assert(name[0] == '.');
            }
            if name == seq!['.', '.'] {
                assert(name[0] == '.' && name[1] == '.');
            }
        }
        let stem_end: usize = match rfind_char(&cs, start, end, '.') {
            Some(dot) => if dot > start {
                dot
            } else {
                end
            },
            None => end,
        };
        let stem = string_of(&cs, start, stem_end);
        proof {
            assert(stem@ =~= file_stem(fixture@)->0);
        }
        Self::from_stem(stem.as_str())
    }

    /// The seed that `stem` spells.
    pub fn from_stem(stem: &str) -> (r: Result<Self, QueryError>)
        ensures
            match r {
                Ok(seed) => seed.wf() && decode_stem(stem@) == Some(seed@),
                Err(e) => e == QueryError::MalformedStem && decode_stem(stem@) is None,
            },
    {
        let cs = chars_of(stem);
        let w = find_char(&cs, cs.len(), 'w');
        let plus = find_char(&cs, w, '+');
        proof {
            lemma_first_index_is_first(stem@, 'w');
            lemma_first_index_is_first(stem_head(stem@), '+');
        }
        if plus < w {
            let ghost head = stem_head(stem@);
            proof {
                assert(head.take(plus as int) =~= cs@.subrange(0, plus as int));
            }
            let from_block = match parse_u64(&cs, 0, plus) {
                Some(number) => number,
                None => {
                    return Err(QueryError::MalformedStem);
                },
            };
            if plus + 1 == w || cs[plus + 1] == '0' {
                return Err(QueryError::MalformedStem);
            }
            let tail = stem.substring_char(plus + 1, cs.len());
            proof {
                lemma_first_index_skip(stem@, 'w', plus + 1);
                assert(stem_head(tail@) =~= head.skip(plus + 1));
                if w < cs.len() {
                    assert(stem@.skip(plus + 1).skip(w - plus - 1 + 1) =~= stem@.skip(w + 1));
                }
            }
            let (block_count, with_name) = match Self::parse_tail(tail) {
                Ok(pair) => pair,
                Err(e) => {
                    return Err(e);
                },
            };
            match from_block.checked_add(block_count) {
                Some(to_block) => Ok(FilterSeed { from_block, to_block, with_name }),
                None => Err(QueryError::MalformedStem),
            }
        } else {
            match Self::parse_tail(stem) {
                Ok((from_block, with_name)) => Ok(
                    FilterSeed { from_block, to_block: from_block, with_name },
                ),
                Err(e) => Err(e),
            }
        }
    }

    /// The number and the filter name that `tail`, of the form
    /// `<number>[w<name>]`, spells.
    pub fn parse_tail(tail: &str) -> (r: Result<(u64, Option<String>), QueryError>)
        ensures
            match r {
                Ok((number, name)) => tail_of(tail@) == Some((number, name.deep_view())),
                Err(e) => e == QueryError::MalformedStem && tail_of(tail@) is None,
            },
    {
        let cs = chars_of(tail);
        let w = find_char(&cs, cs.len(), 'w');
        proof {
            lemma_first_index_is_first(tail@, 'w');
        }
        let number = match parse_u64(&cs, 0, w) {
            Some(number) => number,
            None => {
                return Err(QueryError::MalformedStem);
            },
        };
        let name = if w < cs.len() {
            let name = string_of(&cs, w + 1, cs.len());
            Some(name)
        } else {
            None
        };
        Ok((number, name))
    }

    fn push_range(&self, out: &mut String)
        requires
            self.wf(),
        ensures
            final(out)@ == old(out)@ + range_text(self.from_block, self.to_block),
    {
        push_decimal(out, self.from_block);
        if self.from_block != self.to_block {
            out.push('+');
            push_decimal(out, self.to_block - self.from_block);
        }
    }

    /// The stem that spells this seed.
    pub fn to_stem(&self) -> (r: String)
        requires
            self.wf(),
        ensures
            r@ == encode_stem(self@),
    {
        let mut out = String::new();
        self.push_range(&mut out);
        match &self.with_name {
            Some(name) => {
                out.push('w');
                out.append(name.as_str());
            },
            None => {},
        }
        out
    }

    /// The name of the file that holds this seed's filter descriptor, for a
    /// seed with a filter name.
    pub fn format_filter_basename(&self) -> (r: Option<String>)
        requires
            self.wf(),
        ensures
            r.deep_view() == filter_basename(self@),
    {
        match &self.with_name {
            Some(name) => {
                let mut out = String::new();
                self.push_range(&mut out);
                out.push('f');
                out.append(name.as_str());
                out.append(".json");
                Some(out)
            },
            None => None,
        }
    }

    /// The path of this seed's filter descriptor, which lies beside the
    /// fixture at the path `fixture`.
    pub fn filter_path(&self, fixture: &str) -> (r: Option<String>)
        requires
            self.wf(),
        ensures
            r.deep_view() == match filter_basename(self@) {
                Some(basename) => Some(directory(fixture@) + basename),
                None => None,
            },
    {
        match self.format_filter_basename() {
            Some(basename) => {
                let cs = chars_of(fixture);
                let last = trimmed_len(&cs, cs.len());
                proof {
                    assert(cs@.take(cs@.len() as int) =~= cs@);
                    assert(cs@.subrange(0, last as int) =~= cs@.take(last as int));
                }
                let mut out = match rfind_char(&cs, 0, last, '/') {
                    Some(slash) => {
                        let end = trimmed_len(&cs, slash + 1);
                        proof {
                            assert(cs@.take(slash + 1) =~= cs@.take(last as int).take(slash + 1));
                            assert(cs@.subrange(0, end as int) =~= cs@.take(end as int));
                        }
                        let mut dir = string_of(&cs, 0, end);
                        dir.push('/');
                        dir
                    },
                    None => String::new(),
                };
                proof {
                    assert(out@ =~= directory(fixture@));
                }
                out.append(basename.as_str());
                Some(out)
            },
            None => None,
        }
    }

    /// The address and the key filter of the query behind this fixture.
    ///
    /// `descriptor` is the text of the filter descriptor that goes with the
    /// fixture, if it could be read. A seed without a filter name asks for every
    /// event of its block range, whatever `descriptor` holds.
    pub fn get_filter_address_and_keys(&self, descriptor: Option<&str>) -> (r: Result<
        (Option<Identifier>, Option<Vec<Vec<Identifier>>>),
        QueryError,
    >)
        ensures
            match r {
                Ok((address, keys)) => filter_of(self.with_name is Some, descriptor_view(descriptor))
                    == Ok::<(Option<Identifier>, Option<Seq<Seq<Identifier>>>), QueryError>(
                    (address, keys_view(keys)),
                ),
                Err(e) => filter_of(self.with_name is Some, descriptor_view(descriptor)) == Err::<
                    (Option<Identifier>, Option<Seq<Seq<Identifier>>>),
                    QueryError,
                >(e),
            },
    {
        if self.with_name.is_none() {
            return Ok((None, None));
        }
        let text = match descriptor {
            None => {
                return Err(QueryError::MissingOrMalformedFilterFile);
            },
            Some(text) => text,
        };
        match parse_object(text) {
            Err(_) => Err(QueryError::MissingOrMalformedFilterFile),
            Ok(object) => Self::filter_from_object(&object),
        }
    }

    /// The address and the key filter that a parsed filter descriptor asks
    /// for.
    pub fn filter_from_object(object: &serde_json::Map<String, serde_json::Value>) -> (r: Result<
        (Option<Identifier>, Option<Vec<Vec<Identifier>>>),
        QueryError,
    >)
        ensures
            match r {
                Ok((address, keys)) => descriptor_filter(members(*object)) == Ok::<
                    (Option<Identifier>, Option<Seq<Seq<Identifier>>>),
                    QueryError,
                >((address, keys_view(keys))),
                Err(e) => descriptor_filter(members(*object)) == Err::<
                    (Option<Identifier>, Option<Seq<Seq<Identifier>>>),
                    QueryError,
                >(e),
            },
    {
        let address = match object_get(object, "address") {
            None => None,
            Some(value) => match value_as_str(value) {
                None => {
                    return Err(QueryError::InvalidAddress);
                },
                Some(hex) => match felt_from_hex(hex) {
                    Err(_) => {
                        return Err(QueryError::InvalidAddress);
                    },
                    Ok(felt) => Some(felt),
                },
            },
        };
        let keys = match object_get(object, "keys") {
            None => None,
            Some(value) => match value_as_array(value) {
                None => {
                    return Err(QueryError::UnexpectedKeyType);
                },
                Some(items) => match read_key_filter(items) {
                    Err(e) => {
                        return Err(e);
                    },
                    Ok(keys) => Some(keys),
                },
            },
        };
        Ok((address, keys))
    }
}

} // verus!
