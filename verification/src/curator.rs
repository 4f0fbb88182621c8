//! Deriving filters, and the fixtures that they select, from a captured
//! fixture.
//!
//! Each derived filter gets a number, from 1 up. The filter with number `n`
//! is described in the file `<stem>f<n>.json`, and the events that it selects,
//! in the order in which the source fixture holds them, make the fixture
//! `<stem>w<n>.jsonl`.

use crate::decimal::{all_digits, decimal_text, digits_only, lemma_decimal_text, push_decimal};
use crate::error::QueryError;
use crate::event::{event_views, Event, EventView};
use crate::filter_seed::{
    decode_stem, encode_stem, filter_basename, lemma_decode_encode, FilterSeedView,
};
use crate::lists::{
    clone_texts, contains_text, contains_texts, count_text, distinct, distinct_texts,
    lemma_distinct, occurrences, text_eq,
};
use crate::order::{
    lemma_lex_total_ordering, lemma_sorted_texts, lex_order, sort_texts, sorted_texts,
};
use crate::text::{chars_of, find_char, first_index, lemma_first_index};
use vstd::prelude::*;
use vstd::relations::sorted_by;
use vstd::seq_lib::lemma_sorted_unique;

verus! {

/// How often an address must occur to get a filter of its own, unless the
/// caller says otherwise.
pub const DEFAULT_REPEAT: u32 = 2;

/// What a filter descriptor file holds.
#[derive(Debug, Clone, PartialEq, Eq)]
pub struct FilterDescriptor {
    /// The address that events must come from.
    pub address: Option<String>,
    /// One alternative set for each leading position of an event's keys.
    pub keys: Option<Vec<Vec<String>>>,
}

/// What a `FilterDescriptor` holds, as mathematical values.
pub struct FilterDescriptorView {
    pub address: Option<Seq<char>>,
    pub keys: Option<Seq<Seq<Seq<char>>>>,
}

impl View for FilterDescriptor {
    type V = FilterDescriptorView;

    open spec fn view(&self) -> FilterDescriptorView {
        FilterDescriptorView { address: self.address.deep_view(), keys: self.keys.deep_view() }
    }
}

/// One derived filter with the fixture that it selects.
#[derive(Debug, Clone, PartialEq, Eq)]
pub struct DerivedFixture {
    /// The name of the filter descriptor file.
    pub filter_name: String,
    /// The name of the fixture file.
    pub fixture_name: String,
    /// The filter.
    pub descriptor: FilterDescriptor,
    /// The events that the filter selects, in the order of the source.
    pub events: Vec<Event>,
}

/// What a `DerivedFixture` holds, as mathematical values.
pub struct DerivedFixtureView {
    pub filter_name: Seq<char>,
    pub fixture_name: Seq<char>,
    pub descriptor: FilterDescriptorView,
    pub events: Seq<EventView>,
}

impl View for DerivedFixture {
    type V = DerivedFixtureView;

    open spec fn view(&self) -> DerivedFixtureView {
        DerivedFixtureView {
            filter_name: self.filter_name@,
            fixture_name: self.fixture_name@,
            descriptor: self.descriptor@,
            events: event_views(self.events@),
        }
    }
}

/// The views of a list of derived fixtures.
pub open spec fn fixture_views(fixtures: Seq<DerivedFixture>) -> Seq<DerivedFixtureView> {
    Seq::new(fixtures.len(), |i: int| fixtures[i]@)
}

/// The stem of a fixture that no filter produced: a block number, alone or
/// followed by `+` and a block count without leading zero. Only such
/// fixtures are curated.
pub open spec fn unfiltered_stem(stem: Seq<char>) -> bool {
    let plus = first_index(stem, '+');
    if plus == stem.len() {
        stem.len() > 0 && all_digits(stem)
    } else {
        &&& plus > 0
        &&& all_digits(stem.take(plus))
        &&& plus + 1 < stem.len()
        &&& stem[plus + 1] != '0'
        &&& all_digits(stem.skip(plus + 1))
    }
}

/// The name of the descriptor file of filter `number`.
pub open spec fn filter_file(stem: Seq<char>, number: nat) -> Seq<char> {
    stem + seq!['f'] + decimal_text(number) + ".json"@
}

/// The name of the fixture file of filter `number`.
pub open spec fn fixture_file(stem: Seq<char>, number: nat) -> Seq<char> {
    stem + seq!['w'] + decimal_text(number) + ".jsonl"@
}

/// The addresses of the events, in order; `None` where an event's
/// `from_address` is not a string.
pub open spec fn addresses(events: Seq<EventView>) -> Option<Seq<Seq<char>>> {
    if forall|i: int| 0 <= i < events.len() ==> (#[trigger] events[i]).from_address is Some {
        Some(Seq::new(events.len(), |i: int| events[i].from_address->0))
    } else {
        None
    }
}

/// The test "occurs at least `repeat` times among `all`".
pub open spec fn occurs_often(all: Seq<Seq<char>>, repeat: nat) -> spec_fn(Seq<char>) -> bool {
    |address: Seq<char>| occurrences(all, address) >= repeat
}

/// The addresses that occur at least `repeat` times among `all`, each once,
/// in lexicographic order.
pub open spec fn repeated(all: Seq<Seq<char>>, repeat: nat) -> Seq<Seq<char>> {
    sorted_texts(distinct(all).filter(occurs_often(all, repeat)))
}

/// The test "comes from `address`".
pub open spec fn comes_from(address: Seq<char>) -> spec_fn(EventView) -> bool {
    |event: EventView| event.from_address == Some(address)
}

/// The filter for one address, with number `number`, and what it selects of
/// `events`.
pub open spec fn address_fixture(
    stem: Seq<char>,
    events: Seq<EventView>,
    address: Seq<char>,
    number: nat,
) -> DerivedFixtureView {
    DerivedFixtureView {
        filter_name: filter_file(stem, number),
        fixture_name: fixture_file(stem, number),
        descriptor: FilterDescriptorView { address: Some(address), keys: None },
        events: events.filter(comes_from(address)),
    }
}

/// The filters by address that a fixture gives rise to: one for each address
/// that at least `repeat` of its events come from, numbered in the
/// lexicographic order of the addresses.
pub open spec fn address_fixtures(stem: Seq<char>, events: Seq<EventView>, repeat: nat) -> Option<
    Seq<DerivedFixtureView>,
> {
    match addresses(events) {
        Some(all) => Some(
            Seq::new(
                repeated(all, repeat).len(),
                |i: int| address_fixture(stem, events, repeated(all, repeat)[i], (i + 1) as nat),
            ),
        ),
        None => None,
    }
}

/// Filtering a list without repetitions leaves no repetitions, and keeps
/// exactly the elements that pass the test.
proof fn lemma_filter_distinct<T>(s: Seq<T>, test: spec_fn(T) -> bool)
    requires
        s.no_duplicates(),
    ensures
        s.filter(test).no_duplicates(),
        forall|x: T| #[trigger] s.filter(test).contains(x) <==> s.contains(x) && test(x),
    decreases s.len(),
{
    reveal(Seq::filter);
    if s.len() > 0 {
        let rest = s.drop_last();
        let kept = rest.filter(test);
        lemma_filter_distinct(rest, test);
        assert forall|x: T| #[trigger] s.filter(test).contains(x) <==> s.contains(x) && test(
            x,
        ) by {
            if s.contains(x) && test(x) {
                let i = choose|i: int| 0 <= i < s.len() && s[i] == x;
                if i < rest.len() {
                    assert(rest[i] == x);
                    assert(rest.contains(x));
                    assert(kept.contains(x));
                    let j = choose|j: int| 0 <= j < kept.len() && kept[j] == x;
                    assert(s.filter(test)[j] == x);
                } else {
                    assert(s.filter(test)[kept.len() as int] == x);
                }
            }
            if s.filter(test).contains(x) {
                let j = choose|j: int| 0 <= j < s.filter(test).len() && s.filter(test)[j] == x;
                if j < kept.len() {
                    assert(kept[j] == x);
                    assert(kept.contains(x));
                    let i = choose|i: int| 0 <= i < rest.len() && rest[i] == x;
                    assert(s[i] == x);
                } else {
                    assert(s[s.len() - 1] == x);
                }
            }
        }
        if test(s.last()) {
            if kept.contains(s.last()) {
                let i = choose|i: int| 0 <= i < rest.len() && rest[i] == s.last();
                assert(s[i] == s[s.len() - 1]);
            }
        }
    }
}

/// What address curation retains: the addresses that occur at least `repeat`
/// times, and no others; each once; in lexicographic order.
pub proof fn lemma_repeated(all: Seq<Seq<char>>, repeat: nat)
    ensures
        sorted_by(repeated(all, repeat), lex_order()),
        repeated(all, repeat).no_duplicates(),
        forall|address: Seq<char>| #[trigger]
            repeated(all, repeat).contains(address) <==> all.contains(address) && occurrences(
                all,
                address,
            ) >= repeat,
{
    broadcast use vstd::seq_lib::to_multiset_contains;

    let once = distinct(all);
    let often = occurs_often(all, repeat);
    let kept = once.filter(often);
    let sorted = repeated(all, repeat);
    lemma_distinct(all);
    lemma_filter_distinct(once, often);
    lemma_sorted_texts(kept);
    kept.lemma_multiset_has_no_duplicates();
    sorted.lemma_multiset_has_no_duplicates_conv();
    assert forall|address: Seq<char>| #[trigger]
        sorted.contains(address) <==> all.contains(address) && occurrences(all, address)
            >= repeat by {
        assert(sorted.contains(address) <==> sorted.to_multiset().count(address) > 0);
    }
}

/// The order of the events does not matter to address curation: two lists
/// that hold the same addresses equally often retain the same addresses, in
/// the same order.
pub proof fn lemma_repeated_of_permutation(all: Seq<Seq<char>>, other: Seq<Seq<char>>, repeat: nat)
    requires
        all.to_multiset() == other.to_multiset(),
    ensures
        repeated(all, repeat) == repeated(other, repeat),
{
    broadcast use vstd::seq_lib::to_multiset_contains;

    let left = repeated(all, repeat);
    let right = repeated(other, repeat);
    lemma_repeated(all, repeat);
    lemma_repeated(other, repeat);
    left.lemma_multiset_has_no_duplicates();
    right.lemma_multiset_has_no_duplicates();
    assert forall|address: Seq<char>|
        left.to_multiset().count(address) == right.to_multiset().count(address) by {
        assert(right.to_multiset().contains(address) <==> right.to_multiset().count(address)
            > 0);
    }
    assert(left.to_multiset() =~= right.to_multiset());
    lemma_lex_total_ordering();
    lemma_sorted_unique(left, right, lex_order());
}

/// The names that curation gives agree with the stem grammar. For the stem
/// of a block range, the fixture of filter `number` has the stem of that
/// range with the filter name `number`, and the descriptor of filter `number`
/// has the name under which that fixture looks for its descriptor.
pub proof fn lemma_derived_names(from_block: u64, to_block: u64, number: nat)
    requires
        from_block <= to_block,
    ensures
        ({
            let source = FilterSeedView { from_block, to_block, with_name: None };
            let derived = FilterSeedView {
                from_block,
                to_block,
                with_name: Some(decimal_text(number)),
            };
            &&& unfiltered_stem(encode_stem(source))
            &&& fixture_file(encode_stem(source), number) == encode_stem(derived) + ".jsonl"@
            &&& decode_stem(encode_stem(derived)) == Some(derived)
            &&& filter_basename(derived) == Some(filter_file(encode_stem(source), number))
        }),
{
    let source = FilterSeedView { from_block, to_block, with_name: None };
    let derived = FilterSeedView { from_block, to_block, with_name: Some(decimal_text(number)) };
    let stem = encode_stem(source);
    lemma_decode_encode(derived);
    let first = decimal_text(from_block as nat);
    lemma_decimal_text(from_block as nat);
    if to_block == from_block {
        lemma_first_index(stem, '+', stem.len() as int);
    } else {
        lemma_decimal_text((to_block - from_block) as nat);
        lemma_first_index(stem, '+', first.len() as int);
    }
}

/// Whether `stem` is the stem of a fixture that no filter produced.
pub fn is_unfiltered_stem(stem: &str) -> (r: bool)
    ensures
        r == unfiltered_stem(stem@),
{
    let cs = chars_of(stem);
    let plus = find_char(&cs, cs.len(), '+');
    proof {
        assert(cs@.take(cs@.len() as int) =~= cs@);
    }
    if plus == cs.len() {
        cs.len() > 0 && digits_only(&cs, 0, cs.len())
    } else {
        plus > 0 && digits_only(&cs, 0, plus) && plus + 1 < cs.len() && cs[plus + 1] != '0'
            && digits_only(&cs, plus + 1, cs.len())
    }
}

/// The names of the two files of filter `number`.
fn derived_names(stem: &str, number: usize) -> (r: (String, String))
    ensures
        r.0@ == filter_file(stem@, number as nat),
        r.1@ == fixture_file(stem@, number as nat),
{
    let mut filter_name = String::from_str(stem);
    filter_name.push('f');
    push_decimal(&mut filter_name, number as u64);
    filter_name.append(".json");
    let mut fixture_name = String::from_str(stem);
    fixture_name.push('w');
    push_decimal(&mut fixture_name, number as u64);
    fixture_name.append(".jsonl");
    (filter_name, fixture_name)
}

/// The addresses of the events, or `None` at the first event without one.
fn addresses_of(events: &Vec<Event>) -> (r: Option<Vec<String>>)
    ensures
        r.deep_view() == addresses(event_views(events@)),
{
    let ghost views = event_views(events@);
    let mut out: Vec<String> = Vec::new();
    let mut i: usize = 0;
    while i < events.len()
        invariant
            i <= events.len(),
            views == event_views(events@),
            out.len() == i,
            forall|j: int| 0 <= j < i ==> (#[trigger] views[j]).from_address == Some(out[j]@),
        decreases events.len() - i,
    {
        assert(views[i as int] == events[i as int]@);
        match &events[i].from_address {
            None => {
                return None;
            },
            Some(address) => {
                out.push(address.clone());
            },
        }
        i = i + 1;
    }
    Some(out)
}

/// The addresses that at least `repeat` of the events come from, each once,
/// in lexicographic order.
pub fn repeated_addresses(events: &Vec<Event>, repeat: u32) -> (r: Result<Vec<String>, QueryError>)
    ensures
        match r {
            Ok(kept) => addresses(event_views(events@)) matches Some(all) && kept.deep_view()
                == repeated(all, repeat as nat),
            Err(e) => e == QueryError::UnexpectedFieldType && addresses(event_views(events@))
                is None,
        },
{
    let all = match addresses_of(events) {
        Some(all) => all,
        None => {
            return Err(QueryError::UnexpectedFieldType);
        },
    };
    let once = distinct_texts(&all);
    let ghost source = once.deep_view();
    let ghost often = occurs_often(all.deep_view(), repeat as nat);
    let mut kept: Vec<String> = Vec::new();
    let mut i: usize = 0;
    proof {
        assert(source.take(0).filter(often) =~= Seq::<Seq<char>>::empty()) by {
            reveal(Seq::filter);
        }
    }
    while i < once.len()
        invariant
            i <= once.len(),
            source == once.deep_view(),
            often == occurs_often(all.deep_view(), repeat as nat),
            kept.deep_view() == source.take(i as int).filter(often),
        decreases once.len() - i,
    {
        proof {
            assert(source.take(i + 1) =~= source.take(i as int).push(source[i as int]));
            source.take(i as int).lemma_filter_push(source[i as int], often);
        }
        if count_text(&all, once[i].as_str()) >= repeat as usize {
            kept.push(once[i].clone());
        }
        i = i + 1;
    }
    proof {
        assert(source.take(i as int) =~= source);
    }
    Ok(sort_texts(&kept))
}

/// The events that come from `address`, in order.
fn events_from(events: &Vec<Event>, address: &str) -> (out: Vec<Event>)
    ensures
        event_views(out@) == event_views(events@).filter(comes_from(address@)),
{
    let ghost views = event_views(events@);
    let ghost test = comes_from(address@);
    let mut out: Vec<Event> = Vec::new();
    let mut i: usize = 0;
    proof {
        assert(views.take(0).filter(test) =~= Seq::<EventView>::empty()) by {
            reveal(Seq::filter);
        }
    }
    while i < events.len()
        invariant
            i <= events.len(),
            views == event_views(events@),
            test == comes_from(address@),
            event_views(out@) == views.take(i as int).filter(test),
        decreases events.len() - i,
    {
        proof {
            assert(views.take(i + 1) =~= views.take(i as int).push(views[i as int]));
            views.take(i as int).lemma_filter_push(views[i as int], test);
        }
        let selected = match &events[i].from_address {
            Some(from) => text_eq(from.as_str(), address),
            None => false,
        };
        if selected {
            out.push(events[i].duplicate());
        }
        i = i + 1;
    }
    proof {
        assert(views.take(i as int) =~= views);
    }
    out
}

/// Derives the filters by address from the events of the fixture with the
/// stem `stem`.
pub fn curate_addresses(stem: &str, events: &Vec<Event>, repeat: u32) -> (r: Result<
    Vec<DerivedFixture>,
    QueryError,
>)
    ensures
        match r {
            Ok(fixtures) => address_fixtures(stem@, event_views(events@), repeat as nat) == Some(
                fixture_views(fixtures@),
            ),
            Err(e) => e == QueryError::UnexpectedFieldType && address_fixtures(
                stem@,
                event_views(events@),
                repeat as nat,
            ) is None,
        },
{
    let kept = match repeated_addresses(events, repeat) {
        Ok(kept) => kept,
        Err(e) => {
            return Err(e);
        },
    };
    let ghost views = event_views(events@);
    let ghost wanted = address_fixtures(stem@, views, repeat as nat)->0;
    let mut fixtures: Vec<DerivedFixture> = Vec::new();
    let mut i: usize = 0;
    while i < kept.len()
        invariant
            i <= kept.len(),
            views == event_views(events@),
            address_fixtures(stem@, views, repeat as nat) == Some(wanted),
            wanted.len() == kept.len(),
            kept.deep_view() == repeated(addresses(views)->0, repeat as nat),
            fixtures.len() == i,
            forall|j: int| 0 <= j < i ==> (#[trigger] fixtures[j])@ == wanted[j],
        decreases kept.len() - i,
    {
        let (filter_name, fixture_name) = derived_names(stem, i + 1);
        let fixture = DerivedFixture {
            filter_name,
            fixture_name,
            descriptor: FilterDescriptor { address: Some(kept[i].clone()), keys: None },
            events: events_from(events, kept[i].as_str()),
        };
        fixtures.push(fixture);
        i = i + 1;
    }
    Ok(fixtures)
}

/// The key lists of the events, in order; `None` where an event's `keys` is
/// not an array of strings.
pub open spec fn key_lists(events: Seq<EventView>) -> Option<Seq<Seq<Seq<char>>>> {
    if forall|i: int| 0 <= i < events.len() ==> (#[trigger] events[i]).keys is Some {
        Some(Seq::new(events.len(), |i: int| events[i].keys->0))
    } else {
        None
    }
}

/// The form under which a key list is told from others: itself where the
/// order of keys matters, else its keys in lexicographic order.
pub open spec fn canonical_keys(keys: Seq<Seq<char>>, unordered: bool) -> Seq<Seq<char>> {
    if unordered {
        sorted_texts(keys)
    } else {
        keys
    }
}

/// The test "holds a key".
pub open spec fn has_keys() -> spec_fn(Seq<Seq<char>>) -> bool {
    |keys: Seq<Seq<char>>| keys.len() > 0
}

/// `canonical_keys` for a fixed mode.
pub open spec fn canonical_form(unordered: bool) -> spec_fn(Seq<Seq<char>>) -> Seq<Seq<char>> {
    |keys: Seq<Seq<char>>| canonical_keys(keys, unordered)
}

/// The canonical key lists seen among `lists`, each once, in the order in
/// which they first occur. Empty key lists are left out.
pub open spec fn observed_keys(lists: Seq<Seq<Seq<char>>>, unordered: bool) -> Seq<
    Seq<Seq<char>>,
> {
    distinct(lists.filter(has_keys()).map_values(canonical_form(unordered)))
}

/// The `keys` of the filter descriptor for a canonical key list. Where the
/// order of keys matters, each key stands alone at its position. Else the
/// whole list stands at each position.
pub open spec fn key_pattern(canon: Seq<Seq<char>>, unordered: bool) -> Seq<Seq<Seq<char>>> {
    Seq::new(
        canon.len(),
        |i: int|
            if unordered {
                canon
            } else {
                seq![canon[i]]
            },
    )
}

/// Whether the filter for `canon` selects an event with the keys `keys`.
/// Where the order of keys matters, `keys` must start with `canon`. Else
/// `keys` must hold every key of `canon`, in whatever order and among
/// whatever other keys.
pub open spec fn selects(canon: Seq<Seq<char>>, keys: Seq<Seq<char>>, unordered: bool) -> bool {
    if unordered {
        canon.to_set().subset_of(keys.to_set())
    } else {
        canon.is_prefix_of(keys)
    }
}

/// The test "is selected by the filter for `canon`".
pub open spec fn selected_by(canon: Seq<Seq<char>>, unordered: bool) -> spec_fn(EventView) -> bool {
    |event: EventView|
        match event.keys {
            Some(keys) => selects(canon, keys, unordered),
            None => false,
        }
}

/// Whether a key filter matches `keys` position by position: `keys` has a
/// key at each position of the filter, and it is one of the alternatives
/// there. Keys beyond the filter's positions are free.
pub open spec fn pattern_matches(pattern: Seq<Seq<Seq<char>>>, keys: Seq<Seq<char>>) -> bool {
    pattern.len() <= keys.len() && forall|i: int|
        0 <= i < pattern.len() ==> (#[trigger] pattern[i]).contains(keys[i])
}

/// The filter for one canonical key list, with number `number`, and what it
/// selects of `events`.
pub open spec fn key_fixture(
    stem: Seq<char>,
    events: Seq<EventView>,
    canon: Seq<Seq<char>>,
    unordered: bool,
    number: nat,
) -> DerivedFixtureView {
    DerivedFixtureView {
        filter_name: filter_file(stem, number),
        fixture_name: fixture_file(stem, number),
        descriptor: FilterDescriptorView { address: None, keys: Some(key_pattern(canon, unordered)) },
        events: events.filter(selected_by(canon, unordered)),
    }
}

/// The filters by keys that a fixture gives rise to: one for each canonical
/// key list seen among its events, numbered in the order in which they first
/// occur.
pub open spec fn key_fixtures(stem: Seq<char>, events: Seq<EventView>, unordered: bool) -> Option<
    Seq<DerivedFixtureView>,
> {
    match key_lists(events) {
        Some(lists) => Some(
            Seq::new(
                observed_keys(lists, unordered).len(),
                |i: int|
                    key_fixture(
                        stem,
                        events,
                        observed_keys(lists, unordered)[i],
                        unordered,
                        (i + 1) as nat,
                    ),
            ),
        ),
        None => None,
    }
}

/// Where the order of keys matters, the descriptor's filter matches position
/// by position exactly the key lists that start with the canonical list.
pub proof fn lemma_ordered_pattern(canon: Seq<Seq<char>>, keys: Seq<Seq<char>>)
    ensures
        pattern_matches(key_pattern(canon, false), keys) <==> selects(canon, keys, false),
{
    let pattern = key_pattern(canon, false);
    if pattern_matches(pattern, keys) {
        assert forall|i: int| 0 <= i < canon.len() implies canon[i] == keys[i] by {
            assert(pattern[i].contains(keys[i]));
            let j = choose|j: int| 0 <= j < pattern[i].len() && pattern[i][j] == keys[i];
            assert(pattern[i][j] == canon[i]);
        }
        assert(keys.subrange(0, canon.len() as int) =~= canon);
    }
    if canon.is_prefix_of(keys) {
        assert forall|i: int| 0 <= i < pattern.len() implies (#[trigger] pattern[i]).contains(
            keys[i],
        ) by {
            assert(keys.subrange(0, canon.len() as int)[i] == keys[i]);
            assert(pattern[i][0] == keys[i]);
        }
    }
}

/// Where the order of keys does not matter, a filter selects by the set of an
/// event's keys alone: two key lists that hold the same keys are selected
/// alike.
pub proof fn lemma_unordered_selection(
    canon: Seq<Seq<char>>,
    keys: Seq<Seq<char>>,
    other: Seq<Seq<char>>,
)
    requires
        keys.to_set() == other.to_set(),
    ensures
        selects(canon, keys, true) == selects(canon, other, true),
{
}

/// The filter derived from an event's keys selects that event.
pub proof fn lemma_selects_source(keys: Seq<Seq<char>>, unordered: bool)
    ensures
        selects(canonical_keys(keys, unordered), keys, unordered),
{
    if unordered {
        broadcast use vstd::seq_lib::to_multiset_contains;

        lemma_sorted_texts(keys);
        let canon = sorted_texts(keys);
        assert forall|k: Seq<char>| canon.to_set().contains(k) implies keys.to_set().contains(
            k,
        ) by {
            assert(canon.contains(k));
            assert(canon.to_multiset().contains(k));
            assert(keys.to_multiset().contains(k));
            assert(keys.contains(k));
        }
    } else {
        assert(keys.subrange(0, keys.len() as int) =~= keys);
    }
}

/// Every canonical key list that curation observes holds a key, so no
/// derived filter selects an event without keys.
pub proof fn lemma_observed_have_keys(lists: Seq<Seq<Seq<char>>>, unordered: bool, i: int)
    requires
        0 <= i < observed_keys(lists, unordered).len(),
    ensures
        observed_keys(lists, unordered)[i].len() > 0,
        !selects(observed_keys(lists, unordered)[i], Seq::empty(), unordered),
{
    let kept = lists.filter(has_keys());
    let forms = kept.map_values(canonical_form(unordered));
    let seen = observed_keys(lists, unordered);
    let canon = seen[i];
    lemma_distinct(forms);
    assert(seen.contains(canon));
    assert(forms.contains(canon));
    let j = choose|j: int| 0 <= j < forms.len() && forms[j] == canon;
    lists.lemma_filter_pred(has_keys(), j);
    assert(kept[j].len() > 0);
    if unordered {
        lemma_sorted_texts(kept[j]);
    }
    assert(canon.len() > 0);
    if unordered {
        assert(canon.to_set().contains(canon[0]));
        assert(!Seq::<Seq<char>>::empty().to_set().contains(canon[0]));
    }
}

/// The key lists of the events, or `None` at the first event without one.
fn key_lists_of(events: &Vec<Event>) -> (r: Option<Vec<Vec<String>>>)
    ensures
        r.deep_view() == key_lists(event_views(events@)),
{
    let ghost views = event_views(events@);
    let mut out: Vec<Vec<String>> = Vec::new();
    let mut i: usize = 0;
    while i < events.len()
        invariant
            i <= events.len(),
            views == event_views(events@),
            out.len() == i,
            forall|j: int| 0 <= j < i ==> (#[trigger] views[j]).keys == Some(out[j].deep_view()),
        decreases events.len() - i,
    {
        assert(views[i as int] == events[i as int]@);
        match &events[i].keys {
            None => {
                return None;
            },
            Some(keys) => {
                out.push(clone_texts(keys));
            },
        }
        i = i + 1;
    }
    Some(out)
}

/// The canonical key lists seen among the events, each once, in the order in
/// which they first occur.
pub fn observed_key_lists(events: &Vec<Event>, unordered: bool) -> (r: Result<
    Vec<Vec<String>>,
    QueryError,
>)
    ensures
        match r {
            Ok(seen) => key_lists(event_views(events@)) matches Some(lists) && seen.deep_view()
                == observed_keys(lists, unordered),
            Err(e) => e == QueryError::UnexpectedFieldType && key_lists(event_views(events@))
                is None,
        },
{
    let lists = match key_lists_of(events) {
        Some(lists) => lists,
        None => {
            return Err(QueryError::UnexpectedFieldType);
        },
    };
    let ghost source = lists.deep_view();
    let ghost form = canonical_form(unordered);
    let mut seen: Vec<Vec<String>> = Vec::new();
    let mut i: usize = 0;
    proof {
        assert(source.take(0).filter(has_keys()) =~= Seq::<Seq<Seq<char>>>::empty()) by {
            reveal(Seq::filter);
        }
        assert(source.take(0).filter(has_keys()).map_values(form) =~= Seq::<
            Seq<Seq<char>>,
        >::empty());
    }
    while i < lists.len()
        invariant
            i <= lists.len(),
            source == lists.deep_view(),
            form == canonical_form(unordered),
            seen.deep_view() == distinct(source.take(i as int).filter(has_keys()).map_values(form)),
        decreases lists.len() - i,
    {
        let ghost kept = source.take(i as int).filter(has_keys());
        proof {
            assert(source.take(i + 1) =~= source.take(i as int).push(source[i as int]));
            source.take(i as int).lemma_filter_push(source[i as int], has_keys());
        }
        if lists[i].len() > 0 {
            let canon = if unordered {
                sort_texts(&lists[i])
            } else {
                clone_texts(&lists[i])
            };
            proof {
                assert(kept.push(source[i as int]).map_values(form) =~= kept.map_values(form).push(
                    canon.deep_view(),
                ));
                assert(kept.map_values(form).push(canon.deep_view()).drop_last() =~= kept.map_values(
                    form,
                ));
            }
            if !contains_texts(&seen, &canon) {
                seen.push(canon);
            }
        }
        i = i + 1;
    }
    proof {
        assert(source.take(i as int) =~= source);
    }
    Ok(seen)
}

/// The `keys` of the filter descriptor for the canonical key list `canon`.
pub fn key_pattern_of(canon: &Vec<String>, unordered: bool) -> (out: Vec<Vec<String>>)
    ensures
        out.deep_view() == key_pattern(canon.deep_view(), unordered),
{
    let mut out: Vec<Vec<String>> = Vec::new();
    let mut i: usize = 0;
    while i < canon.len()
        invariant
            i <= canon.len(),
            out.len() == i,
            forall|j: int|
                0 <= j < i ==> (#[trigger] out[j]).deep_view() == key_pattern(
                    canon.deep_view(),
                    unordered,
                )[j],
        decreases canon.len() - i,
    {
        let set = if unordered {
            clone_texts(canon)
        } else {
            let mut one: Vec<String> = Vec::new();
            one.push(canon[i].clone());
            one
        };
        out.push(set);
        i = i + 1;
    }
    out
}

/// Whether the filter for the canonical key list `canon` selects an event
/// with the keys `keys`.
pub fn keys_selected(canon: &Vec<String>, keys: &Vec<String>, unordered: bool) -> (r: bool)
    ensures
        r == selects(canon.deep_view(), keys.deep_view(), unordered),
{
    let ghost c = canon.deep_view();
    let ghost k = keys.deep_view();
    if unordered {
        let mut i: usize = 0;
        while i < canon.len()
            invariant
                unordered,
                i <= canon.len(),
                c == canon.deep_view(),
                k == keys.deep_view(),
                forall|j: int| 0 <= j < i ==> k.contains(#[trigger] c[j]),
            decreases canon.len() - i,
        {
            if !contains_text(keys, canon[i].as_str()) {
                proof {
                    assert(c.to_set().contains(c[i as int]));
                }
                return false;
            }
            i = i + 1;
        }
        proof {
            assert forall|x: Seq<char>| c.to_set().contains(x) implies k.to_set().contains(x) by {
                let j = choose|j: int| 0 <= j < c.len() && c[j] == x;
            }
        }
        true
    } else {
        if canon.len() > keys.len() {
            return false;
        }
        let mut i: usize = 0;
        while i < canon.len()
            invariant
                !unordered,
                i <= canon.len() <= keys.len(),
                c == canon.deep_view(),
                k == keys.deep_view(),
                forall|j: int| 0 <= j < i ==> k[j] == c[j],
            decreases canon.len() - i,
        {
            assert(c[i as int] == canon[i as int]@);
            if !text_eq(canon[i].as_str(), keys[i].as_str()) {
                return false;
            }
            i = i + 1;
        }
        true
    }
}

/// Whether a key filter matches `keys` position by position.
pub fn key_filter_matches(pattern: &Vec<Vec<String>>, keys: &Vec<String>) -> (r: bool)
    ensures
        r == pattern_matches(pattern.deep_view(), keys.deep_view()),
{
    let ghost p = pattern.deep_view();
    let ghost k = keys.deep_view();
    if pattern.len() > keys.len() {
        return false;
    }
    let mut i: usize = 0;
    while i < pattern.len()
        invariant
            i <= pattern.len() <= keys.len(),
            p == pattern.deep_view(),
            k == keys.deep_view(),
            forall|j: int| 0 <= j < i ==> (#[trigger] p[j]).contains(k[j]),
        decreases pattern.len() - i,
    {
        assert(p[i as int] == pattern[i as int].deep_view());
        if !contains_text(&pattern[i], keys[i].as_str()) {
            return false;
        }
        i = i + 1;
    }
    true
}

/// The events that the filter for `canon` selects, in order.
fn events_selected(events: &Vec<Event>, canon: &Vec<String>, unordered: bool) -> (out: Vec<Event>)
    ensures
        event_views(out@) == event_views(events@).filter(
            selected_by(canon.deep_view(), unordered),
        ),
{
    let ghost views = event_views(events@);
    let ghost test = selected_by(canon.deep_view(), unordered);
    let mut out: Vec<Event> = Vec::new();
    let mut i: usize = 0;
    proof {
        assert(views.take(0).filter(test) =~= Seq::<EventView>::empty()) by {
            reveal(Seq::filter);
        }
    }
    while i < events.len()
        invariant
            i <= events.len(),
            views == event_views(events@),
            test == selected_by(canon.deep_view(), unordered),
            event_views(out@) == views.take(i as int).filter(test),
        decreases events.len() - i,
    {
        proof {
            assert(views.take(i + 1) =~= views.take(i as int).push(views[i as int]));
            views.take(i as int).lemma_filter_push(views[i as int], test);
        }
        let selected = match &events[i].keys {
            Some(keys) => keys_selected(canon, keys, unordered),
            None => false,
        };
        if selected {
            out.push(events[i].duplicate());
        }
        i = i + 1;
    }
    proof {
        assert(views.take(i as int) =~= views);
    }
    out
}

/// Derives the filters by keys from the events of the fixture with the stem
/// `stem`. With `unordered`, key lists that differ only in the order of their
/// keys give one filter.
pub fn curate_keys(stem: &str, events: &Vec<Event>, unordered: bool) -> (r: Result<
    Vec<DerivedFixture>,
    QueryError,
>)
    ensures
        match r {
            Ok(fixtures) => key_fixtures(stem@, event_views(events@), unordered) == Some(
                fixture_views(fixtures@),
            ),
            Err(e) => e == QueryError::UnexpectedFieldType && key_fixtures(
                stem@,
                event_views(events@),
                unordered,
            ) is None,
        },
{
    let seen = match observed_key_lists(events, unordered) {
        Ok(seen) => seen,
        Err(e) => {
            return Err(e);
        },
    };
    let ghost views = event_views(events@);
    let ghost wanted = key_fixtures(stem@, views, unordered)->0;
    let mut fixtures: Vec<DerivedFixture> = Vec::new();
    let mut i: usize = 0;
    while i < seen.len()
        invariant
            i <= seen.len(),
            views == event_views(events@),
            key_fixtures(stem@, views, unordered) == Some(wanted),
            wanted.len() == seen.len(),
            seen.deep_view() == observed_keys(key_lists(views)->0, unordered),
            fixtures.len() == i,
            forall|j: int| 0 <= j < i ==> (#[trigger] fixtures[j])@ == wanted[j],
        decreases seen.len() - i,
    {
        let (filter_name, fixture_name) = derived_names(stem, i + 1);
        let fixture = DerivedFixture {
            filter_name,
            fixture_name,
            descriptor: FilterDescriptor {
                address: None,
                keys: Some(key_pattern_of(&seen[i], unordered)),
            },
            events: events_selected(events, &seen[i], unordered),
        };
        fixtures.push(fixture);
        i = i + 1;
    }
    Ok(fixtures)
}

} // verus!
