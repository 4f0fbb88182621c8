//! A captured event in canonical form.

use crate::error::QueryError;
use crate::lists::clone_texts;
use crate::json::{
    items_of, members, object_get, object_remove, render_object, rendered, text_of,
    value_as_array, value_as_str,
};
use vstd::prelude::*;

verus! {

/// One event, normalised for comparison.
///
/// `text` is the event as compact JSON with its members in name order, so two
/// events that differ only in member order or white space have the same
/// `text`. The member `block_hash`, which the transport adds, is no part of an
/// event and is left out. The two fields that the curation tools read are taken out once:
/// `from_address` is `None` where the member is not a string, `keys` is `None`
/// where the member is not an array of strings.
#[derive(Debug, Clone, PartialEq, Eq)]
pub struct Event {
    pub text: String,
    pub from_address: Option<String>,
    pub keys: Option<Vec<String>>,
}

/// What an `Event` holds, as mathematical values.
pub struct EventView {
    pub text: Seq<char>,
    pub from_address: Option<Seq<char>>,
    pub keys: Option<Seq<Seq<char>>>,
}

impl View for Event {
    type V = EventView;

    open spec fn view(&self) -> EventView {
        EventView {
            text: self.text@,
            from_address: self.from_address.deep_view(),
            keys: self.keys.deep_view(),
        }
    }
}

impl Event {
    /// A copy of this event.
    pub fn duplicate(&self) -> (r: Event)
        ensures
            r@ == self@,
    {
        let from_address = match &self.from_address {
            Some(address) => Some(address.clone()),
            None => None,
        };
        let keys = match &self.keys {
            Some(keys) => Some(clone_texts(keys)),
            None => None,
        };
        Event { text: self.text.clone(), from_address, keys }
    }

    /// Reads the event out of a parsed JSON object, leaving out the member
    /// `block_hash`.
    pub fn from_object(object: serde_json::Map<String, serde_json::Value>) -> (r: Result<
        Event,
        QueryError,
    >)
        ensures
            match r {
                Ok(event) => event_of(members(object)) == Some(event@),
                Err(e) => e == QueryError::MalformedEvent && event_of(members(object)) is None,
            },
    {
        let mut object = object;
        object_remove(&mut object, "block_hash");
        let object = &object;
        let text = match render_object(object) {
            Ok(text) => text,
            Err(_) => {
                return Err(QueryError::MalformedEvent);
            },
        };
        let from_address = match object_get(object, "from_address") {
            None => None,
            Some(value) => match value_as_str(value) {
                None => None,
                Some(address) => Some(String::from_str(address)),
            },
        };
        let keys = match object_get(object, "keys") {
            None => None,
            Some(value) => match value_as_array(value) {
                None => None,
                Some(items) => strings_of(items),
            },
        };
        Ok(Event { text, from_address, keys })
    }
}

/// The views of a list of events.
pub open spec fn event_views(events: Seq<Event>) -> Seq<EventView> {
    Seq::new(events.len(), |i: int| events[i]@)
}

/// The member `name` of an object, where it is a JSON string.
pub open spec fn string_member(object: Map<Seq<char>, serde_json::Value>, name: Seq<char>) -> Option<
    Seq<char>,
> {
    if object.contains_key(name) {
        text_of(object[name])
    } else {
        None
    }
}

/// The strings of a JSON array, where every element is a string.
pub open spec fn texts_of(items: Seq<serde_json::Value>) -> Option<Seq<Seq<char>>> {
    if forall|i: int| 0 <= i < items.len() ==> (#[trigger] text_of(items[i])) is Some {
        Some(Seq::new(items.len(), |i: int| text_of(items[i])->0))
    } else {
        None
    }
}

/// The member `name` of an object, where it is an array of JSON strings.
pub open spec fn string_list_member(
    object: Map<Seq<char>, serde_json::Value>,
    name: Seq<char>,
) -> Option<Seq<Seq<char>>> {
    if object.contains_key(name) {
        match items_of(object[name]) {
            Some(items) => texts_of(items),
            None => None,
        }
    } else {
        None
    }
}

/// The members of an event: those of the object but `block_hash`, which the
/// transport adds and which is no part of an event's identity.
pub open spec fn event_members(object: Map<Seq<char>, serde_json::Value>) -> Map<
    Seq<char>,
    serde_json::Value,
> {
    object.remove("block_hash"@)
}

/// The event that a JSON object stands for: the canonical text of its event
/// members, and the two fields read from them. `None` where they cannot be
/// written as text.
pub open spec fn event_of(object: Map<Seq<char>, serde_json::Value>) -> Option<EventView> {
    match rendered(event_members(object)) {
        Some(text) => Some(
            EventView {
                text,
                from_address: string_member(event_members(object), "from_address"@),
                keys: string_list_member(event_members(object), "keys"@),
            },
        ),
        None => None,
    }
}

/// The strings of `items`, or `None` at the first element that is not one.
fn strings_of(items: &Vec<serde_json::Value>) -> (r: Option<Vec<String>>)
    ensures
        r.deep_view() == texts_of(items@),
{
    let mut out: Vec<String> = Vec::new();
    let mut i: usize = 0;
    while i < items.len()
        invariant
            i <= items.len(),
            out.len() == i,
            forall|j: int| 0 <= j < i ==> (#[trigger] text_of(items[j])) == Some(out[j]@),
        decreases items.len() - i,
    {
        match value_as_str(&items[i]) {
            None => {
                return None;
            },
            Some(text) => {
                out.push(String::from_str(text));
            },
        }
        i = i + 1;
    }
    Some(out)
}

} // verus!
