//! The mathematical model of accumulation: a fold of a step function over the
//! entries of the objects fed in.
use vstd::prelude::*;

use crate::json::{keys, Entry};

verus! {

/// What one entry produces, in the model.
pub enum Event {
    /// The schema is satisfied; carries the accumulated entries in arrival order.
    Completed(Seq<Entry>),
    /// A key outside the schema, with its value, passed on unchanged.
    Foreign(Seq<char>, serde_json::Value),
    /// A schema key was taken in; the schema is not satisfied yet.
    Pending,
    /// A schema key that is already filled arrived again.
    Duplicate(Seq<char>),
}

/// One step: the accumulated entries after `(key, value)` arrives, and its event.
///
/// The accumulation is emptied when it completes the schema, so that the next
/// fill cycle starts from nothing.
pub open spec fn step(schema: Set<Seq<char>>, filled: Seq<Entry>, key: Seq<char>, value: serde_json::Value) -> (Seq<Entry>, Event) {
    if !schema.contains(key) {
        (filled, Event::Foreign(key, value))
    } else if keys(filled).contains(key) {
        (filled, Event::Duplicate(key))
    } else {
        let f = filled.push((key, value));
        if keys(f).to_set() == schema {
            (Seq::empty(), Event::Completed(f))
        } else {
            (f, Event::Pending)
        }
    }
}

/// The fold of `step` over `entries`, stopping after the first duplicate.
pub open spec fn run(schema: Set<Seq<char>>, filled: Seq<Entry>, entries: Seq<Entry>) -> (Seq<Entry>, Seq<Event>)
    decreases entries.len(),
{
    if entries.len() == 0 {
        (filled, Seq::empty())
    } else {
        let (f1, e) = step(schema, filled, entries[0].0, entries[0].1);
        if e is Duplicate {
            (f1, seq![e])
        } else {
            let (f2, es) = run(schema, f1, entries.drop_first());
            (f2, seq![e] + es)
        }
    }
}

} // verus!
