//! The string-valued maps of a project manifest, as the reconcilers see
//! them.

use vstd::prelude::*;

verus! {

/// Trusted: the type `serde_json::Value`, carried through without looking
/// inside.
#[verifier::external_type_specification]
#[verifier::external_body]
pub struct ExJsonValue(serde_json::Value);

/// Trusted: the type `serde_json::Map`. What a map of it holds is spoken of
/// through [`json_entries`].
#[verifier::external_type_specification]
#[verifier::external_body]
#[verifier::reject_recursive_types(K)]
#[verifier::reject_recursive_types(V)]
pub struct ExJsonMap<K, V>(serde_json::Map<K, V>);

/// What a manifest map holds: for each key, the text of its value if the
/// value is a string, and `None` if it is any other kind of value.
pub uninterp spec fn json_entries(m: serde_json::Map<String, serde_json::Value>) -> Map<
    Seq<char>,
    Option<Seq<char>>,
>;

/// The text that a manifest map holds under `key`, where a missing key and
/// a value that is no string both read as the empty text.
pub open spec fn text_at(entries: Map<Seq<char>, Option<Seq<char>>>, key: Seq<char>) -> Seq<char> {
    if entries.dom().contains(key) && entries[key] is Some {
        entries[key]->0
    } else {
        Seq::empty()
    }
}

/// Trusted: `serde_json::Map::get`, with the value read through
/// `serde_json::Value::as_str`. The outer option says whether the key is
/// present; the inner one holds the value's text if the value is a string.
#[verifier::external_body]
pub(crate) fn entry_text(m: &serde_json::Map<String, serde_json::Value>, key: &str) -> (r: Option<
    Option<String>,
>)
    ensures
        r is Some == json_entries(*m).dom().contains(key@),
        r is Some ==> (r->0 is Some == json_entries(*m)[key@] is Some),
        r is Some && r->0 is Some ==> r->0->0@ == json_entries(*m)[key@]->0,
{
    m.get(key).map(|v| v.as_str().map(|s| s.to_string()))
}

/// Trusted: `serde_json::Map::insert` with a string value. Afterwards the
/// map holds `value` under `key` and is otherwise unchanged.
#[verifier::external_body]
pub(crate) fn put_text(m: &mut serde_json::Map<String, serde_json::Value>, key: String, value: String)
    ensures
        json_entries(*final(m)) == json_entries(*old(m)).insert(key@, Some(value@)),
{
    m.insert(key, serde_json::Value::String(value));
}

/// Trusted: `serde_json::Map::remove`. Afterwards the map holds nothing
/// under `key` and is otherwise unchanged.
#[verifier::external_body]
pub(crate) fn drop_entry(m: &mut serde_json::Map<String, serde_json::Value>, key: &str)
    ensures
        json_entries(*final(m)) == json_entries(*old(m)).remove(key@),
{
    m.remove(key);
}

} // verus!
