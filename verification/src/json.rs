//! JSON text, read and written by `serde_json`.

use vstd::prelude::*;

use crate::text::opt_text;

verus! {

/// The string under `key` in the object that a JSON text holds. There is none where the text is
/// not JSON, not an object, has no such key, or has something other than a string there.
pub uninterp spec fn json_member(json: Seq<char>, key: Seq<char>) -> Option<Seq<char>>;

/// `serde_json::from_str` into a `serde_json::Value`, then `Value::get` and `Value::as_str`: the
/// result depends on the text and the key alone. How JSON is read is left unsaid.
#[verifier::external_body]
pub(crate) fn string_member(json: &str, key: &str) -> (r: Option<String>)
    ensures
        opt_text(r) == json_member(json@, key@),
{
    let value = serde_json::from_str::<serde_json::Value>(json).ok()?;
    let member = value.get(key)?.as_str()?;
    Some(member.to_owned())
}

/// Whether two JSON texts have the same string members.
pub open spec fn same_members(a: Seq<char>, b: Seq<char>) -> bool {
    forall|key: Seq<char>| #[trigger] json_member(a, key) == json_member(b, key)
}

/// A JSON text without white space between its parts and with the keys of each object in
/// order; nothing where the text is not JSON.
pub uninterp spec fn json_compact(json: Seq<char>) -> Option<Seq<char>>;

/// `serde_json::from_str` into a `serde_json::Value`, then `serde_json::to_string`: the result
/// depends on the text alone, and writing a value down keeps its string members. How JSON is
/// read and written is otherwise left unsaid.
#[verifier::external_body]
pub(crate) fn compact(json: &str) -> (r: Option<String>)
    ensures
        opt_text(r) == json_compact(json@),
        r matches Some(c) ==> same_members(c@, json@),
{
    let value = serde_json::from_str::<serde_json::Value>(json).ok()?;
    serde_json::to_string(&value).ok()
}

} // verus!
