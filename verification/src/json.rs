//! The JSON text of strings and of the small objects the store reads,
//! as produced and accepted by `serde_json`.

use std::collections::BTreeMap;
use vstd::prelude::*;

verus! {

#[verifier::external_type_specification]
#[verifier::external_body]
pub struct ExJsonError(serde_json::Error);

/// An object whose members are objects of strings, by member name.
pub type Nested = Vec<(String, Vec<(String, String)>)>;

/// An object whose members are strings or `null`, by member name.
pub type Flat = Vec<(String, Option<String>)>;

/// The JSON text that `serde_json::to_vec` writes for a string, or `None`
/// where it reports an error.
pub uninterp spec fn json_text(s: Seq<char>) -> Option<Seq<u8>>;

/// The string that `serde_json::from_slice` reads from `bytes`, or `None`
/// where it reports an error.
pub uninterp spec fn json_string(bytes: Seq<u8>) -> Option<Seq<char>>;

/// What `serde_json::from_slice` reads from `bytes` as an object of objects
/// of strings, members in ascending order of their names, or `None` where it
/// reports an error.
pub uninterp spec fn json_nested(bytes: Seq<u8>) -> Option<
    Seq<(Seq<char>, Seq<(Seq<char>, Seq<char>)>)>,
>;

/// What `serde_json::from_slice` reads from `bytes` as an object of strings
/// and `null`s, members in ascending order of their names, or `None` where
/// it reports an error.
pub uninterp spec fn json_flat(bytes: Seq<u8>) -> Option<Seq<(Seq<char>, Option<Seq<char>>)>>;

/// Calls `serde_json::to_vec` on a string. The contract only gives the
/// outcome its name: the same string always yields the same text.
#[verifier::external_body]
pub(crate) fn write_json_text(s: &str) -> (r: Result<Vec<u8>, serde_json::Error>)
    ensures
        match r {
            Ok(text) => json_text(s@) == Some(text@),
            Err(_) => json_text(s@) is None,
        },
{
    serde_json::to_vec(s)
}

/// Calls `serde_json::from_slice` for a string. The contract only gives the
/// outcome its name: the same bytes always read the same.
#[verifier::external_body]
pub(crate) fn read_json_text(bytes: &[u8]) -> (r: Result<String, serde_json::Error>)
    ensures
        match r {
            Ok(s) => json_string(bytes@) == Some(s@),
            Err(_) => json_string(bytes@) is None,
        },
{
    serde_json::from_slice::<String>(bytes)
}

/// Calls `serde_json::from_slice` for a map of maps of strings and lists
/// the members in the map's order. The contract only gives the outcome its
/// name: the same bytes always read the same.
#[verifier::external_body]
pub(crate) fn read_json_nested(bytes: &[u8]) -> (r: Result<Nested, serde_json::Error>)
    ensures
        match r {
            Ok(members) => json_nested(bytes@) == Some(members.deep_view()),
            Err(_) => json_nested(bytes@) is None,
        },
{
    let m = serde_json::from_slice::<BTreeMap<String, BTreeMap<String, String>>>(bytes)?;
    Ok(m.into_iter().map(|(name, fields)| (name, fields.into_iter().collect())).collect())
}

/// Calls `serde_json::from_slice` for a map of optional strings and lists
/// the members in the map's order. The contract only gives the outcome its
/// name: the same bytes always read the same.
#[verifier::external_body]
pub(crate) fn read_json_flat(bytes: &[u8]) -> (r: Result<Flat, serde_json::Error>)
    ensures
        match r {
            Ok(members) => json_flat(bytes@) == Some(members.deep_view()),
            Err(_) => json_flat(bytes@) is None,
        },
{
    let m = serde_json::from_slice::<BTreeMap<String, Option<String>>>(bytes)?;
    Ok(m.into_iter().collect())
}

/// The text of `serde_json::Error`'s `Display`.
#[verifier::external_body]
pub(crate) fn json_error_text(e: &serde_json::Error) -> String {
    format!("{}", e)
}

} // verus!
