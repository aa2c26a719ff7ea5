//! The parts of `serde_json` that the JavaScript-runtime helpers read.

use vstd::prelude::*;

verus! {

/// `serde_json::Value`, carried through opaquely.
#[verifier::external_type_specification]
#[verifier::external_body]
pub struct ExJsonValue(serde_json::Value);

/// `serde_json::Map`, carried through opaquely; its keys are
/// [`json_map_keys`].
#[verifier::external_type_specification]
#[verifier::external_body]
#[verifier::reject_recursive_types(K)]
#[verifier::reject_recursive_types(V)]
pub struct ExJsonMap<K, V>(serde_json::Map<K, V>);

/// The keys of a JSON object, in the order the map walks them (insertion
/// order, since the map is built with `preserve_order`).
pub uninterp spec fn json_map_keys(map: serde_json::Map<String, serde_json::Value>) -> Seq<
    Seq<char>,
>;

/// Calls `serde_json::Map::keys`. Trusted: the keys come out in the order of
/// [`json_map_keys`], and a map holds each key once (it is an `IndexMap`).
#[verifier::external_body]
pub(crate) fn map_keys<'a>(map: &'a serde_json::Map<String, serde_json::Value>) -> (r: Vec<&'a String>)
    ensures
        r@.map_values(|k: &String| k@) == json_map_keys(*map),
        r@.map_values(|k: &String| k@).no_duplicates(),
{
    map.keys().collect()
}

} // verus!
