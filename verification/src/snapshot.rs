//! The snapshot document: the store's entries as a single JSON object of
//! string keys and string values, the form in which the store is persisted.

use vstd::prelude::*;

use crate::model::{map_of, unique_keys};

verus! {

/// The JSON document that denotes a given finite key/value mapping.
pub uninterp spec fn json_of(m: Map<Seq<char>, Seq<char>>) -> Seq<char>;

/// Whether a document is accepted as a snapshot: a JSON object of string
/// keys and string values.
pub uninterp spec fn parses_as_snapshot(doc: Seq<char>) -> bool;

/// Relies on serde_json::to_string on a std BTreeMap of strings: the map
/// serializes as one JSON object, walked in key order, so the document is a
/// function of the key/value mapping alone. Serializing string keys and
/// string values does not fail.
#[verifier::external_body]
pub(crate) fn encode_entries(entries: &Vec<(String, String)>) -> (r: String)
    requires
        unique_keys(entries@),
    ensures
        r@ == json_of(map_of(entries@)),
{
    let map: std::collections::BTreeMap<&str, &str> =
        entries.iter().map(|e| (e.0.as_str(), e.1.as_str())).collect();
    serde_json::to_string(&map).unwrap()
}

/// Relies on serde_json::from_str into a std BTreeMap of strings: it accepts
/// exactly the JSON objects of string values — in particular any document
/// produced by serde_json::to_string from such a map, which parses back to
/// the same finite mapping — and rejects everything else.
#[verifier::external_body]
pub(crate) fn decode_entries(doc: &str) -> (r: Option<Vec<(String, String)>>)
    ensures
        r is Some <==> parses_as_snapshot(doc@),
        (exists|m: Map<Seq<char>, Seq<char>>| m.dom().finite() && doc@ == json_of(m)) ==> r
            is Some,
        r matches Some(entries) ==> unique_keys(entries@) && (forall|m: Map<Seq<char>, Seq<char>>|
            m.dom().finite() && doc@ == json_of(m) ==> map_of(entries@) == m),
{
    match serde_json::from_str::<std::collections::BTreeMap<String, String>>(doc) {
        Ok(map) => Some(map.into_iter().collect()),
        Err(_) => None,
    }
}

} // verus!
