//! The field accumulator: takes in the entries of JSON objects one at a time
//! and reports, for each, whether it completed the record, was foreign to the
//! schema, or left the record pending.
use vstd::prelude::*;

use crate::json::{
    entries_of, entries_view, keys, object_contains_key, object_entries, object_insert,
    object_len, object_new, value_into_entries, Entry, Object,
};
use crate::model::{run, step, Event};

verus! {

/// The outcome of one key.
pub enum Data<T> {
    /// The schema is complete: the record, made of all fields received.
    Input(T),
    /// A key outside the schema, with its value unchanged.
    Stream(String, serde_json::Value),
    /// A schema field was taken in; more are needed.
    Continue,
}

/// Why a key or an object could not be taken in.
#[derive(Debug, PartialEq, Eq)]
pub enum ProcessError {
    /// A schema field arrived while already filled in the current cycle.
    DuplicateKey(String),
    /// The value handed to `process` is not a JSON object.
    NotAnObject,
}

/// The event that an outcome of `step` stands for in the model.
pub open spec fn event_of(r: Result<Data<Object>, ProcessError>) -> Event {
    match r {
        Ok(Data::Input(m)) => Event::Completed(entries_of(m)),
        Ok(Data::Stream(k, v)) => Event::Foreign(k@, v),
        Ok(Data::Continue) => Event::Pending,
        Err(ProcessError::DuplicateKey(k)) => Event::Duplicate(k@),
        Err(ProcessError::NotAnObject) => Event::Pending,
    }
}

/// The events that a sequence of outcomes stands for.
pub open spec fn events_of(v: Seq<Data<Object>>) -> Seq<Event> {
    v.map_values(|d: Data<Object>| event_of(Ok(d)))
}

/// The schema that a serialized template record gives: its top-level keys
/// when it is an object, and no field otherwise.
pub open spec fn template_schema(template: serde_json::Value) -> Seq<Seq<char>> {
    match object_entries(template) {
        Some(es) => keys(es),
        None => Seq::empty(),
    }
}

/// The entries of one object, walked key by key against a processor.
pub struct DataIterator {
    entries: Vec<(String, serde_json::Value)>,
}

impl DataIterator {
    /// The entries not walked yet, in order.
    pub closed spec fn remaining(&self) -> Seq<Entry> {
        entries_view(self.entries@)
    }

    /// Walks the next entry through `processor.step`; `None` once every entry
    /// has been walked.
    pub fn next(&mut self, processor: &mut StreamProcessor) -> (r: Option<
        Result<Data<Object>, ProcessError>,
    >)
        requires
            old(processor).wf(),
        ensures
            final(processor).wf(),
            final(processor).schema() == old(processor).schema(),
            old(self).remaining().len() == 0 ==> {
                &&& r is None
                &&& final(self).remaining() == old(self).remaining()
                &&& final(processor).filled() == old(processor).filled()
            },
            old(self).remaining().len() > 0 ==> {
                &&& r is Some
                &&& !(r->Some_0 matches Err(ProcessError::NotAnObject))
                &&& final(self).remaining() == old(self).remaining().drop_first()
                &&& (final(processor).filled(), event_of(r->Some_0)) == step(
                    old(processor).schema_set(),
                    old(processor).filled(),
                    old(self).remaining()[0].0,
                    old(self).remaining()[0].1,
                )
            },
    {
        if self.entries.len() == 0 {
            return None;
        }
        let (key, value) = self.entries.remove(0);
        proof {
            assert(self.remaining() =~= old(self).remaining().drop_first());
        }
        Some(processor.step(key, value))
    }
}

/// Accumulates the fields of one record type, given by its schema.
pub struct StreamProcessor {
    fields: Vec<String>,
    map: Object,
}

impl StreamProcessor {
    /// The schema's field names, in order.
    pub closed spec fn schema(&self) -> Seq<Seq<char>> {
        self.fields@.map_values(|s: String| s@)
    }

    /// The schema's field names as a set.
    pub open spec fn schema_set(&self) -> Set<Seq<char>> {
        self.schema().to_set()
    }

    /// The entries received in the current fill cycle, in arrival order.
    pub closed spec fn filled(&self) -> Seq<Entry> {
        entries_of(self.map)
    }

    /// The schema names each field once; the filled entries are distinct
    /// schema fields, fewer than the schema holds.
    pub closed spec fn wf(&self) -> bool {
        &&& self.schema().no_duplicates()
        &&& keys(self.filled()).no_duplicates()
        &&& keys(self.filled()).to_set().subset_of(self.schema_set())
    }

    /// A processor whose schema is the top-level keys of `template`, the
    /// serialized default record; a template that is not an object gives an
    /// empty schema, which no key can complete.
    pub fn new(template: serde_json::Value) -> (r: Self)
        ensures
            r.wf(),
            r.schema() == template_schema(template),
            r.filled() == Seq::<Entry>::empty(),
    {
        let ghost t = template;
        let mut fields: Vec<String> = Vec::new();
        match value_into_entries(template) {
            Some(entries) => {
                let ghost es = entries_view(entries@);
                let mut i: usize = 0;
                while i < entries.len()
                    invariant
                        0 <= i <= entries.len(),
                        es == entries_view(entries@),
                        object_entries(t) == Some(es),
                        fields@.map_values(|s: String| s@) =~= keys(es).take(i as int),
                    decreases entries.len() - i,
                {
                    fields.push(entries[i].0.clone());
                    proof {
                        assert(keys(es).take(i + 1) =~= keys(es).take(i as int).push(es[i as int].0));
                    }
                    i += 1;
                }
                proof {
                    assert(keys(es).take(i as int) =~= keys(es));
                }
            },
            None => {},
        }
        let r = StreamProcessor { fields, map: object_new() };
        proof {
            assert(keys(r.filled()) =~= Seq::<Seq<char>>::empty());
        }
        r
    }

    /// The entries of `json` to be walked one by one with
    /// `DataIterator::next`; an error when `json` is not an object.
    pub fn process(&self, json: serde_json::Value) -> (r: Result<DataIterator, ProcessError>)
        ensures
            match object_entries(json) {
                None => r == Err::<DataIterator, ProcessError>(ProcessError::NotAnObject),
                Some(es) => r is Ok && r->Ok_0.remaining() == es,
            },
    {
        match value_into_entries(json) {
            Some(entries) => Ok(DataIterator { entries }),
            None => Err(ProcessError::NotAnObject),
        }
    }

    /// Walks every entry of `json` in order and collects the outcomes.
    ///
    /// Stops at the first duplicate schema field and returns that error; the
    /// fields taken in before it stay in the accumulation.
    pub fn process_all(&mut self, json: serde_json::Value) -> (r: Result<
        Vec<Data<Object>>,
        ProcessError,
    >)
        requires
            old(self).wf(),
        ensures
            final(self).wf(),
            final(self).schema() == old(self).schema(),
            match object_entries(json) {
                None => {
                    &&& r == Err::<Vec<Data<Object>>, ProcessError>(ProcessError::NotAnObject)
                    &&& final(self).filled() == old(self).filled()
                },
                Some(es) => {
                    let (f, evs) = run(old(self).schema_set(), old(self).filled(), es);
                    &&& final(self).filled() == f
                    &&& match r {
                        Ok(v) => events_of(v@) == evs,
                        Err(e) => evs.len() > 0 && evs.last() is Duplicate && evs.last()
                            == event_of(Err(e)),
                    }
                },
            },
    {
        let ghost schema = self.schema_set();
        let ghost f0 = self.filled();
        let mut it = match self.process(json) {
            Ok(it) => it,
            Err(e) => return Err(e),
        };
        let ghost es = it.remaining();
        let mut out: Vec<Data<Object>> = Vec::new();
        loop
            invariant
                self.wf(),
                self.schema_set() == schema,
                self.schema() == old(self).schema(),
                schema == old(self).schema_set(),
                f0 == old(self).filled(),
                object_entries(json) == Some(es),
                run(schema, f0, es) == (
                    run(schema, self.filled(), it.remaining()).0,
                    events_of(out@) + run(schema, self.filled(), it.remaining()).1,
                ),
            decreases it.remaining().len(),
        {
            let ghost cur = self.filled();
            let ghost rest = it.remaining();
            match it.next(self) {
                None => {
                    proof {
                        assert(events_of(out@) + Seq::<Event>::empty() =~= events_of(out@));
                    }
                    return Ok(out);
                },
                Some(Ok(d)) => {
                    proof {
                        assert(rest.drop_first() == it.remaining());
                        assert(!(event_of(Ok(d)) is Duplicate));
                        assert(events_of(out@.push(d)) =~= events_of(out@).push(event_of(Ok(d))));
                        let tail = run(schema, self.filled(), it.remaining()).1;
                        assert(events_of(out@) + (seq![event_of(Ok(d))] + tail) =~= events_of(
                            out@.push(d),
                        ) + tail);
                    }
                    out.push(d);
                },
                Some(Err(e)) => {
                    proof {
                        assert(event_of(Err(e)) is Duplicate);
                        let evs = events_of(out@) + seq![event_of(Err(e))];
                        assert(evs.last() == event_of(Err(e)));
                    }
                    return Err(e);
                },
            }
        }
    }

    /// The schema's field names, in order.
    pub fn fields(&self) -> (r: &Vec<String>)
        ensures
            r@.map_values(|s: String| s@) == self.schema(),
    {
        &self.fields
    }

    /// Whether `key` names a field of the schema.
    fn has_field(&self, key: &String) -> (r: bool)
        ensures
            r == self.schema().contains(key@),
    {
        let mut i: usize = 0;
        while i < self.fields.len()
            invariant
                0 <= i <= self.fields.len(),
                forall|j: int| 0 <= j < i ==> self.schema()[j] != key@,
            decreases self.fields.len() - i,
        {
            if self.fields[i] == *key {
                assert(self.schema()[i as int] == key@);
                return true;
            }
            i += 1;
        }
        false
    }

    /// Takes in one key with its value: the per-key rule of accumulation.
    ///
    /// A key outside the schema is passed on and changes nothing. A schema
    /// field already filled in this cycle is an error and changes nothing.
    /// Any other schema field is recorded; when it is the last one missing,
    /// the record is handed out and the accumulation starts afresh.
    pub fn step(&mut self, key: String, value: serde_json::Value) -> (r: Result<
        Data<Object>,
        ProcessError,
    >)
        requires
            old(self).wf(),
        ensures
            final(self).wf(),
            final(self).schema() == old(self).schema(),
            !(r matches Err(ProcessError::NotAnObject)),
            (final(self).filled(), event_of(r)) == step(
                old(self).schema_set(),
                old(self).filled(),
                key@,
                value,
            ),
    {
        broadcast use vstd::seq_lib::group_seq_properties, vstd::set_lib::group_set_properties;

        let ghost k = key@;
        let ghost old_filled = self.filled();
        if !self.has_field(&key) {
            return Ok(Data::Stream(key, value));
        }
        if object_contains_key(&self.map, &key) {
            return Err(ProcessError::DuplicateKey(key));
        }
        object_insert(&mut self.map, key, value);
        let ghost f = self.filled();
        proof {
            assert(f == old_filled.push((k, value)));
            assert(keys(f) =~= keys(old_filled).push(k));
            assert(keys(f).no_duplicates());
            assert(keys(f).to_set() =~= keys(old_filled).to_set().insert(k));
            keys(f).unique_seq_to_set();
            self.schema().unique_seq_to_set();
        }
        if object_len(&self.map) == self.fields.len() {
            proof {
                vstd::set_lib::lemma_subset_equality(keys(f).to_set(), self.schema_set());
            }
            let mut done = object_new();
            std::mem::swap(&mut done, &mut self.map);
            proof {
                assert(keys(self.filled()) =~= Seq::<Seq<char>>::empty());
            }
            Ok(Data::Input(done))
        } else {
            Ok(Data::Continue)
        }
    }
}

} // verus!
