//! Reading JSON documents through `serde_json`, as plain strings.
//!
//! A JSON value is handed out by its compact text (what `serde_json` prints for it);
//! objects and arrays are handed out as their members' compact texts.
use vstd::prelude::*;

use crate::yaml::{pairs_view, strings_view};

verus! {

/// The compact text of the JSON value in `doc`, or the parse error.
pub uninterp spec fn json_compact(doc: Seq<char>) -> Result<Seq<char>, Seq<char>>;

/// The members of the JSON object in `doc` (key, compact value text); `None` when the
/// value is not an object.
pub uninterp spec fn json_object(doc: Seq<char>) -> Result<Option<Seq<(Seq<char>, Seq<char>)>>, Seq<char>>;

/// The items of the JSON array in `doc` (compact texts); `None` when the value is not an
/// array.
pub uninterp spec fn json_array(doc: Seq<char>) -> Result<Option<Seq<Seq<char>>>, Seq<char>>;

/// Parses `doc` with `serde_json::from_str::<serde_json::Value>` and prints the value with
/// its `Display`; the contract names the result.
#[verifier::external_body]
pub(crate) fn json_compact_text(doc: &str) -> (r: Result<String, String>)
    ensures
        match r {
            Ok(s) => json_compact(doc@) == Ok::<_, Seq<char>>(s@),
            Err(e) => json_compact(doc@) == Err::<Seq<char>, _>(e@),
        },
{
    serde_json::from_str::<serde_json::Value>(doc).map(|v| v.to_string()).map_err(|e| e.to_string())
}

/// Parses `doc` with `serde_json::from_str::<serde_json::Value>`; for an object, its
/// members with their printed values. The contract names the result.
#[verifier::external_body]
pub(crate) fn json_object_members(doc: &str) -> (r: Result<Option<Vec<(String, String)>>, String>)
    ensures
        match r {
            Ok(Some(v)) => json_object(doc@) == Ok::<_, Seq<char>>(Some(pairs_view(v@))),
            Ok(None) => json_object(doc@) == Ok::<_, Seq<char>>(None::<Seq<(Seq<char>, Seq<char>)>>),
            Err(e) => json_object(doc@) == Err::<Option<Seq<(Seq<char>, Seq<char>)>>, _>(e@),
        },
{
    let v = serde_json::from_str::<serde_json::Value>(doc).map_err(|e| e.to_string())?;
    Ok(v.as_object().map(|m| m.iter().map(|(k, x)| (k.clone(), x.to_string())).collect()))
}

/// Parses `doc` with `serde_json::from_str::<serde_json::Value>`; for an array, its items
/// printed. The contract names the result.
#[verifier::external_body]
pub(crate) fn json_array_items(doc: &str) -> (r: Result<Option<Vec<String>>, String>)
    ensures
        match r {
            Ok(Some(v)) => json_array(doc@) == Ok::<_, Seq<char>>(Some(strings_view(v@))),
            Ok(None) => json_array(doc@) == Ok::<_, Seq<char>>(None::<Seq<Seq<char>>>),
            Err(e) => json_array(doc@) == Err::<Option<Seq<Seq<char>>>, _>(e@),
        },
{
    let v = serde_json::from_str::<serde_json::Value>(doc).map_err(|e| e.to_string())?;
    Ok(v.as_array().map(|a| a.iter().map(|x| x.to_string()).collect()))
}

/// The first member named `key` from position `i` on.
pub open spec fn member_from(ms: Seq<(Seq<char>, Seq<char>)>, key: Seq<char>, i: int) -> Option<Seq<char>>
    decreases ms.len() - i,
{
    if i < 0 || i >= ms.len() {
        None
    } else if ms[i].0 == key {
        Some(ms[i].1)
    } else {
        member_from(ms, key, i + 1)
    }
}

/// The member `key` of the JSON object `doc` (`Value::get` with a key).
pub open spec fn json_get_key(doc: Seq<char>, key: Seq<char>) -> Option<Seq<char>> {
    match json_object(doc) {
        Ok(Some(ms)) => member_from(ms, key, 0),
        _ => None,
    }
}

/// The item `index` of the JSON array `doc` (`Value::get` with an index).
pub open spec fn json_get_index(doc: Seq<char>, index: nat) -> Option<Seq<char>> {
    match json_array(doc) {
        Ok(Some(items)) => if index < items.len() {
            Some(items[index as int])
        } else {
            None
        },
        _ => None,
    }
}

/// Looks up member `key` in the JSON object `doc`.
pub fn get_key(doc: &str, key: &str) -> (r: Option<String>)
    ensures
        match json_get_key(doc@, key@) {
            Some(v) => r matches Some(s) && s@ == v,
            None => r is None,
        },
{
    let ms = match json_object_members(doc) {
        Ok(Some(ms)) => ms,
        _ => {
            return None;
        },
    };
    let ghost mv = pairs_view(ms@);
    let mut i: usize = 0;
    while i < ms.len()
        invariant
            i <= ms@.len(),
            mv == pairs_view(ms@),
            json_object(doc@) == Ok::<_, Seq<char>>(Some(mv)),
            member_from(mv, key@, 0) == member_from(mv, key@, i as int),
        decreases ms.len() - i,
    {
        assert(mv[i as int] == (ms@[i as int].0@, ms@[i as int].1@));
        if crate::text::str_eq(ms[i].0.as_str(), key) {
            return Some(ms[i].1.clone());
        }
        i = i + 1;
    }
    None
}

/// Looks up item `index` in the JSON array `doc`.
pub fn get_index(doc: &str, index: usize) -> (r: Option<String>)
    ensures
        match json_get_index(doc@, index as nat) {
            Some(v) => r matches Some(s) && s@ == v,
            None => r is None,
        },
{
    match json_array_items(doc) {
        Ok(Some(items)) => {
            if index < items.len() {
                assert(strings_view(items@)[index as int] == items@[index as int]@);
                Some(items[index].clone())
            } else {
                None
            }
        },
        _ => None,
    }
}

} // verus!
