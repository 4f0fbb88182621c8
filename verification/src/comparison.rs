//! Comparing what was retrieved with what a fixture holds.

use crate::error::QueryError;
use crate::util::{canonical_event, parse_event};
use vstd::prelude::*;

verus! {

/// How two lists of events part at one position.
pub enum Divergence {
    /// One of the two lines there is no JSON object.
    Malformed,
    /// The two events there differ, or one list has ended: the canonical
    /// text of each side, and `None` for a side that has ended. Where one
    /// side has ended, the other is given as it stands in its list.
    Mismatch { actual: Option<Seq<char>>, expected: Option<Seq<char>> },
}

/// How `actual` and `expected` part at position `i`, or `None` where they
/// agree there: both have ended, or both hold an event there and the two
/// have the same canonical text.
pub open spec fn divergence_at(actual: Seq<Seq<char>>, expected: Seq<Seq<char>>, i: int) -> Option<
    Divergence,
> {
    if i >= actual.len() && i >= expected.len() {
        None
    } else if i >= actual.len() {
        Some(Divergence::Mismatch { actual: None, expected: Some(expected[i]) })
    } else if i >= expected.len() {
        Some(Divergence::Mismatch { actual: Some(actual[i]), expected: None })
    } else {
        match (canonical_event(actual[i]), canonical_event(expected[i])) {
            (Some(a), Some(e)) => if a.text == e.text {
                None
            } else {
                Some(Divergence::Mismatch { actual: Some(a.text), expected: Some(e.text) })
            },
            _ => Some(Divergence::Malformed),
        }
    }
}

/// The error `e` reports the divergence `d` at position `index`.
pub open spec fn reports(e: QueryError, index: int, d: Divergence) -> bool {
    match d {
        Divergence::Malformed => e == QueryError::MalformedEvent,
        Divergence::Mismatch { actual, expected } => match e {
            QueryError::VerificationMismatch { index: at, actual: a, expected: x } => at == index
                && a.deep_view() == actual && x.deep_view() == expected,
            _ => false,
        },
    }
}

/// `actual` and `expected` agree at every position before `index`.
pub open spec fn agree_before(actual: Seq<Seq<char>>, expected: Seq<Seq<char>>, index: int) -> bool {
    forall|i: int| 0 <= i < index ==> (#[trigger] divergence_at(actual, expected, i)) is None
}

/// Compares the retrieved events with those of the fixture, line by line and
/// in order: both lists must have the same length and, at each position, the
/// same event in canonical form. The first position at which they part
/// decides the error.
pub fn check_received_data(actual: &Vec<String>, expected: &Vec<String>) -> (r: Result<
    (),
    QueryError,
>)
    ensures
        match r {
            Ok(_) => actual.len() == expected.len() && agree_before(
                actual.deep_view(),
                expected.deep_view(),
                actual.len() as int,
            ),
            Err(e) => exists|index: int|
                0 <= index && agree_before(actual.deep_view(), expected.deep_view(), index) && (
                #[trigger] divergence_at(actual.deep_view(), expected.deep_view(), index)) is Some
                    && reports(
                    e,
                    index,
                    divergence_at(actual.deep_view(), expected.deep_view(), index)->0,
                ),
        },
{
    let ghost a = actual.deep_view();
    let ghost x = expected.deep_view();
    let mut i: usize = 0;
    while i < actual.len() && i < expected.len()
        invariant
            i <= actual.len(),
            i <= expected.len(),
            a == actual.deep_view(),
            x == expected.deep_view(),
            agree_before(a, x, i as int),
        decreases actual.len() - i,
    {
        let actual_event = match parse_event(actual[i].as_str()) {
            Ok(event) => event,
            Err(e) => {
                assert(reports(e, i as int, divergence_at(a, x, i as int)->0));
                return Err(e);
            },
        };
        let expected_event = match parse_event(expected[i].as_str()) {
            Ok(event) => event,
            Err(e) => {
                return Err(e);
            },
        };
        if actual_event.text != expected_event.text {
            let e = QueryError::VerificationMismatch {
                index: i,
                actual: Some(actual_event.text),
                expected: Some(expected_event.text),
            };
            return Err(e);
        }
        i = i + 1;
    }
    if i < actual.len() {
        let e = QueryError::VerificationMismatch {
            index: i,
            actual: Some(actual[i].clone()),
            expected: None,
        };
        assert(reports(e, i as int, divergence_at(a, x, i as int)->0));
        return Err(e);
    }
    if i < expected.len() {
        let e = QueryError::VerificationMismatch {
            index: i,
            actual: None,
            expected: Some(expected[i].clone()),
        };
        return Err(e);
    }
    Ok(())
}

} // verus!
