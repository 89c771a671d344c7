//! The custom fan labels as they are stored on disk: a JSON object that maps
//! fan ids to labels.

use vstd::prelude::*;
use std::collections::BTreeMap;
use crate::table::keys_of;

verus! {

/// The entries of a list of string pairs.
pub open spec fn string_pairs_view(s: Seq<(String, String)>) -> Seq<(Seq<char>, Seq<char>)> {
    s.map_values(|e: (String, String)| (e.0@, e.1@))
}

/// The entries, in ascending key order, of the JSON object of strings that
/// `text` holds; `None` when `text` is not such an object.
pub uninterp spec fn json_string_map(text: Seq<char>) -> Option<Seq<(Seq<char>, Seq<char>)>>;

/// The pretty-printed JSON object that holds the given entries.
pub uninterp spec fn pretty_json_string_map(entries: Seq<(Seq<char>, Seq<char>)>) -> Seq<char>;

/// Reads a JSON object of strings.
///
/// Calls `serde_json::from_str` for a `BTreeMap<String, String>`; the contract
/// claims that the entries it gives, in the map's ascending key order, are
/// `json_string_map(text)`, and that it fails exactly where that is `None`.
#[verifier::external_body]
pub(crate) fn parse_string_map(text: &str) -> (r: Option<Vec<(String, String)>>)
    ensures
        match r {
            Some(v) => json_string_map(text@) == Some(string_pairs_view(v@)),
            None => json_string_map(text@) is None,
        },
{
    serde_json::from_str::<BTreeMap<String, String>>(text).ok().map(|m| m.into_iter().collect())
}

/// Writes a JSON object of strings, pretty-printed.
///
/// Calls `serde_json::to_string_pretty` on a `BTreeMap<String, String>` that
/// holds the entries (their keys are distinct); the contract names the text
/// `pretty_json_string_map(entries)`. Serialising a map with string keys does
/// not fail; an empty text would stand for a failure.
#[verifier::external_body]
pub(crate) fn string_map_to_json(entries: &Vec<(String, String)>) -> (s: String)
    requires
        keys_of(string_pairs_view(entries@)).no_duplicates(),
    ensures
        s@ == pretty_json_string_map(string_pairs_view(entries@)),
{
    let map: BTreeMap<String, String> = entries.iter().cloned().collect();
    serde_json::to_string_pretty(&map).unwrap_or_default()
}

} // verus!
