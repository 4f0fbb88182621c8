//! Canonical events from JSON text.

use crate::error::QueryError;
use crate::event::{event_of, Event, EventView};
use crate::json::{parse_object, parsed};
use vstd::prelude::*;

verus! {

/// The canonical event that a JSON text spells: the event of its object,
/// which leaves out the member `block_hash`. `None` where the text is not a
/// JSON object.
pub open spec fn canonical_event(raw: Seq<char>) -> Option<EventView> {
    match parsed(raw) {
        Some(object) => event_of(object),
        None => None,
    }
}

/// The member `block_hash` is no part of an event's identity: two texts whose
/// objects differ in that member alone spell the same canonical event.
pub proof fn lemma_block_hash_is_no_identity(one: Seq<char>, other: Seq<char>)
    requires
        parsed(one) is Some,
        parsed(other) is Some,
        parsed(one)->0.remove("block_hash"@) == parsed(other)->0.remove("block_hash"@),
    ensures
        canonical_event(one) == canonical_event(other),
{
}

/// The canonical events of a list of JSON texts, where each is a JSON object.
pub open spec fn canonical_events(raws: Seq<Seq<char>>) -> Option<Seq<EventView>> {
    if forall|i: int| 0 <= i < raws.len() ==> (#[trigger] canonical_event(raws[i])) is Some {
        Some(Seq::new(raws.len(), |i: int| canonical_event(raws[i])->0))
    } else {
        None
    }
}

/// Brings an event, as a line of a fixture or as the transport wrote it, into
/// canonical form.
pub fn parse_event(raw_string: &str) -> (r: Result<Event, QueryError>)
    ensures
        match r {
            Ok(event) => canonical_event(raw_string@) == Some(event@),
            Err(e) => e == QueryError::MalformedEvent && canonical_event(raw_string@) is None,
        },
{
    match parse_object(raw_string) {
        Err(_) => Err(QueryError::MalformedEvent),
        Ok(object) => Event::from_object(object),
    }
}

} // verus!
