//! Properties of accumulation, proved over the model that the processor's
//! contracts are stated in.
use vstd::prelude::*;

use crate::json::{keys, Entry};
use crate::model::{run, step, Event};

verus! {

broadcast use vstd::seq_lib::group_seq_properties, vstd::seq_lib::group_filter_ensures;

/// Whether an entry's key belongs to `schema`.
pub open spec fn in_schema(schema: Set<Seq<char>>) -> spec_fn(Entry) -> bool {
    |e: Entry| schema.contains(e.0)
}

/// A key outside the schema is passed on with its value unchanged, and the
/// accumulated entries stay as they were.
pub proof fn lemma_foreign_passthrough(
    schema: Set<Seq<char>>,
    filled: Seq<Entry>,
    key: Seq<char>,
    value: serde_json::Value,
)
    requires
        !schema.contains(key),
    ensures
        step(schema, filled, key, value) == (filled, Event::Foreign(key, value)),
{
}

/// A schema field that is already filled in the current cycle is reported as
/// a duplicate, and nothing changes.
pub proof fn lemma_duplicate_detected(
    schema: Set<Seq<char>>,
    filled: Seq<Entry>,
    key: Seq<char>,
    value: serde_json::Value,
)
    requires
        schema.contains(key),
        keys(filled).contains(key),
    ensures
        step(schema, filled, key, value) == (filled, Event::Duplicate(key)),
{
}

/// A schema field taken in without completing the record is a duplicate when
/// it arrives a second time.
pub proof fn lemma_repeat_is_duplicate(
    schema: Set<Seq<char>>,
    filled: Seq<Entry>,
    key: Seq<char>,
    first: serde_json::Value,
    second: serde_json::Value,
)
    requires
        step(schema, filled, key, first).1 is Pending,
    ensures
        step(schema, step(schema, filled, key, first).0, key, second).1 == Event::Duplicate(key),
{
    let f = filled.push((key, first));
    assert(keys(f).last() == key);
    assert(keys(f).contains(key));
}

/// With an empty schema every entry is passed on as foreign: no record is
/// ever completed, and the accumulation never changes.
pub proof fn lemma_empty_schema_never_completes(filled: Seq<Entry>, entries: Seq<Entry>)
    ensures
        run(Set::empty(), filled, entries).0 == filled,
        run(Set::empty(), filled, entries).1.len() == entries.len(),
        forall|i: int|
            0 <= i < entries.len() ==> run(Set::empty(), filled, entries).1[i] == Event::Foreign(
                entries[i].0,
                entries[i].1,
            ),
    decreases entries.len(),
{
    if entries.len() > 0 {
        lemma_empty_schema_never_completes(filled, entries.drop_first());
    }
}

/// The event that entry `i` yields when a fill cycle starts empty and entry
/// `last` is the last schema field among `entries`.
pub open spec fn completion_event(schema: Set<Seq<char>>, entries: Seq<Entry>, last: int, i: int) -> Event {
    if i == last {
        Event::Completed(entries.filter(in_schema(schema)))
    } else if schema.contains(entries[i].0) {
        Event::Pending
    } else {
        Event::Foreign(entries[i].0, entries[i].1)
    }
}

/// The accumulation before entry `j` in that fill cycle.
spec fn filled_before(schema: Set<Seq<char>>, entries: Seq<Entry>, last: int, j: int) -> Seq<Entry> {
    if j <= last {
        entries.take(j).filter(in_schema(schema))
    } else {
        Seq::empty()
    }
}

/// Every key accumulated before entry `j` is the key of an earlier entry.
proof fn lemma_filled_keys_earlier(schema: Set<Seq<char>>, entries: Seq<Entry>, j: int, s: Seq<char>)
    requires
        0 <= j <= entries.len(),
        keys(entries.take(j).filter(in_schema(schema))).contains(s),
    ensures
        exists|i: int| 0 <= i < j && entries[i].0 == s,
{
    let f = entries.take(j).filter(in_schema(schema));
    let m = choose|m: int| 0 <= m < keys(f).len() && keys(f)[m] == s;
    assert(f.contains(f[m]));
    entries.take(j).lemma_filter_contains_rev(in_schema(schema), f[m]);
    let i = choose|i: int| 0 <= i < j && entries.take(j)[i] == f[m];
    assert(entries[i].0 == s);
}

/// The premises of a fill cycle that completes at entry `last`.
spec fn completes_at(schema: Set<Seq<char>>, entries: Seq<Entry>, last: int) -> bool {
    &&& keys(entries).no_duplicates()
    &&& 0 <= last < entries.len()
    &&& schema.contains(entries[last].0)
    &&& forall|i: int| last < i < entries.len() ==> !schema.contains(#[trigger] entries[i].0)
    &&& forall|s: Seq<char>| schema.contains(s) ==> keys(entries).contains(s)
}

/// Entry `j` of that fill cycle yields its event and moves the accumulation on.
proof fn lemma_step_at(schema: Set<Seq<char>>, entries: Seq<Entry>, last: int, j: int)
    requires
        completes_at(schema, entries, last),
        0 <= j < entries.len(),
    ensures
        step(schema, filled_before(schema, entries, last, j), entries[j].0, entries[j].1) == (
            filled_before(schema, entries, last, j + 1),
            completion_event(schema, entries, last, j),
        ),
{
    let p = in_schema(schema);
    let st = filled_before(schema, entries, last, j);
    let key = entries[j].0;
    let value = entries[j].1;
    let next = filled_before(schema, entries, last, j + 1);
    assert((key, value) == entries[j]);
    if j <= last {
        assert(entries.take(j + 1).drop_last() =~= entries.take(j));
        assert(entries.take(j + 1).last() == entries[j]);
        reveal(Seq::filter);
        assert(entries.take(j + 1).filter(p) == if p(entries[j]) {
            entries.take(j).filter(p).push(entries[j])
        } else {
            entries.take(j).filter(p)
        });
        if schema.contains(key) {
            assert(!keys(st).contains(key)) by {
                if keys(st).contains(key) {
                    lemma_filled_keys_earlier(schema, entries, j, key);
                    let i = choose|i: int| 0 <= i < j && entries[i].0 == key;
                    assert(keys(entries)[i] == keys(entries)[j]);
                }
            }
        }
    }
    if j < last {
        if schema.contains(key) {
            assert(next == st.push((key, value)));
            assert(keys(next).to_set() != schema) by {
                let s = entries[last].0;
                if keys(next).contains(s) {
                    lemma_filled_keys_earlier(schema, entries, j + 1, s);
                    let i = choose|i: int| 0 <= i < j + 1 && entries[i].0 == s;
                    assert(keys(entries)[i] == keys(entries)[last]);
                }
                assert(!keys(next).to_set().contains(s));
            }
        } else {
            assert(next == st);
        }
    } else if j == last {
        let whole = entries.take(j + 1).filter(p);
        assert(whole == st.push((key, value)));
        assert(entries.filter(p) == whole) by {
            assert(entries =~= entries.take(j + 1) + entries.skip(j + 1));
            Seq::filter_distributes_over_add(entries.take(j + 1), entries.skip(j + 1), p);
            entries.skip(j + 1).lemma_all_neg_filter_empty(p);
            assert(entries.skip(j + 1).filter(p) =~= Seq::<Entry>::empty());
            assert(entries.filter(p) =~= whole);
        }
        assert(keys(whole).to_set() =~= schema) by {
            assert forall|s: Seq<char>| keys(whole).contains(s) implies schema.contains(s) by {
                let m = choose|m: int| 0 <= m < keys(whole).len() && keys(whole)[m] == s;
                assert(p(whole[m]));
            }
            assert forall|s: Seq<char>| schema.contains(s) implies keys(whole).contains(s) by {
                let i = choose|i: int| 0 <= i < keys(entries).len() && keys(entries)[i] == s;
                assert(i <= last);
                assert(entries.take(j + 1)[i] == entries[i]);
                entries.take(j + 1).lemma_filter_contains(p, i);
                let m = choose|m: int| 0 <= m < whole.len() && whole[m] == entries[i];
                assert(keys(whole)[m] == s);
            }
        }
    }
}

proof fn lemma_completion_from(schema: Set<Seq<char>>, entries: Seq<Entry>, last: int, j: int)
    requires
        completes_at(schema, entries, last),
        0 <= j <= entries.len(),
    ensures
        run(schema, filled_before(schema, entries, last, j), entries.skip(j)).0 == Seq::<
            Entry,
        >::empty(),
        run(schema, filled_before(schema, entries, last, j), entries.skip(j)).1.len()
            == entries.len() - j,
        forall|i: int|
            j <= i < entries.len() ==> run(
                schema,
                filled_before(schema, entries, last, j),
                entries.skip(j),
            ).1[i - j] == completion_event(schema, entries, last, i),
    decreases entries.len() - j,
{
    let st = filled_before(schema, entries, last, j);
    if j == entries.len() {
        assert(entries.skip(j).len() == 0);
    } else {
        let rest = entries.skip(j);
        assert(rest[0] == entries[j]);
        assert(rest.drop_first() =~= entries.skip(j + 1));
        lemma_completion_from(schema, entries, last, j + 1);
        lemma_step_at(schema, entries, last, j);
        let next = filled_before(schema, entries, last, j + 1);
        let tail = run(schema, next, entries.skip(j + 1)).1;
        assert(run(schema, st, rest).1 == seq![completion_event(schema, entries, last, j)] + tail);
        assert forall|i: int| j <= i < entries.len() implies run(schema, st, rest).1[i - j]
            == completion_event(schema, entries, last, i) by {
            if i > j {
                assert(run(schema, st, rest).1[i - j] == tail[i - (j + 1)]);
            }
        }
    }
}

/// A fill cycle that starts empty and is fed entries (with distinct keys, as
/// an object has) that hold every schema field, interspersed with foreign
/// keys, completes exactly once: at the last schema field, whose event
/// carries all schema entries in arrival order, the same record as supplying
/// them all at once. Every other schema field yields `Pending`, every foreign
/// key `Foreign`, and the cycle ends empty.
pub proof fn lemma_completion(schema: Set<Seq<char>>, entries: Seq<Entry>, last: int)
    requires
        keys(entries).no_duplicates(),
        0 <= last < entries.len(),
        schema.contains(entries[last].0),
        forall|i: int| last < i < entries.len() ==> !schema.contains(#[trigger] entries[i].0),
        forall|s: Seq<char>| schema.contains(s) ==> keys(entries).contains(s),
    ensures
        run(schema, Seq::empty(), entries).0 == Seq::<Entry>::empty(),
        run(schema, Seq::empty(), entries).1.len() == entries.len(),
        forall|i: int|
            0 <= i < entries.len() ==> run(schema, Seq::empty(), entries).1[i]
                == completion_event(schema, entries, last, i),
{
    lemma_completion_from(schema, entries, last, 0);
    assert(entries.take(0) =~= Seq::<Entry>::empty());
    assert(entries.skip(0) =~= entries);
    assert(filled_before(schema, entries, last, 0) =~= Seq::<Entry>::empty());
}

} // verus!
