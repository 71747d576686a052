//! The JSON values and objects of `serde_json`, as this library sees them.
//!
//! A `Value` is carried through unread. An object (`serde_json::Map`) is seen
//! as the sequence of its entries, in the map's own iteration order.
use vstd::prelude::*;

verus! {

#[verifier::external_type_specification]
#[verifier::external_body]
pub struct ExValue(serde_json::Value);

#[verifier::external_type_specification]
#[verifier::external_body]
#[verifier::reject_recursive_types(K)]
#[verifier::reject_recursive_types(V)]
pub struct ExMap<K, V>(serde_json::Map<K, V>);

/// A JSON object: string keys with their JSON values.
pub type Object = serde_json::Map<String, serde_json::Value>;

/// One entry of an object, with its key as a character sequence.
pub type Entry = (Seq<char>, serde_json::Value);

/// The entries of an object, in the order in which the object yields them.
pub uninterp spec fn entries_of(m: serde_json::Map<String, serde_json::Value>) -> Seq<Entry>;

/// The entries of a JSON value that is an object; `None` for any other value.
pub uninterp spec fn object_entries(v: serde_json::Value) -> Option<Seq<Entry>>;

/// The keys of a sequence of entries.
pub open spec fn keys(s: Seq<Entry>) -> Seq<Seq<char>> {
    s.map_values(|e: Entry| e.0)
}

/// The view of an owned entry.
pub open spec fn entry_view(e: (String, serde_json::Value)) -> Entry {
    (e.0@, e.1)
}

/// The views of a vector of owned entries.
pub open spec fn entries_view(v: Seq<(String, serde_json::Value)>) -> Seq<Entry> {
    v.map_values(|e: (String, serde_json::Value)| entry_view(e))
}

/// Relies on `serde_json::Map::new`: a new map holds no entry.
#[verifier::external_body]
pub fn object_new() -> (r: Object)
    ensures
        entries_of(r) == Seq::<Entry>::empty(),
{
    serde_json::Map::new()
}

/// Relies on `serde_json::Map::contains_key`: whether some entry has the key.
#[verifier::external_body]
pub fn object_contains_key(m: &Object, k: &String) -> (r: bool)
    ensures
        r == keys(entries_of(*m)).contains(k@),
{
    m.contains_key(k)
}

/// Relies on `serde_json::Map::insert` (insertion-ordered with the
/// `preserve_order` feature): a key not yet present is appended at the end.
#[verifier::external_body]
pub fn object_insert(m: &mut Object, k: String, v: serde_json::Value)
    ensures
        !keys(entries_of(*old(m))).contains(k@) ==> entries_of(*final(m)) == entries_of(
            *old(m),
        ).push((k@, v)),
{
    m.insert(k, v);
}

/// Relies on `serde_json::Map::len`: the number of entries.
#[verifier::external_body]
pub fn object_len(m: &Object) -> (r: usize)
    ensures
        r == entries_of(*m).len(),
{
    m.len()
}

/// Relies on the `serde_json::Value::Object` variant: the entries of an object,
/// through `serde_json::Map::into_iter`; `None` for every other kind of value.
#[verifier::external_body]
pub fn value_into_entries(v: serde_json::Value) -> (r: Option<Vec<(String, serde_json::Value)>>)
    ensures
        match object_entries(v) {
            None => r is None,
            Some(es) => r is Some && entries_view(r->Some_0@) == es && keys(entries_view(r->Some_0@)).no_duplicates(),
        },
{
    match v {
        serde_json::Value::Object(m) => Some(m.into_iter().collect()),
        _ => None,
    }
}

} // verus!
