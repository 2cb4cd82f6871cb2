//! Reading single fields out of JSON documents.

use vstd::prelude::*;

verus! {

/// The text that a JSON document holds under a field of its top-level
/// object; `None` where the document is not JSON, is no object, lacks the
/// field, or holds something other than text there.
pub uninterp spec fn json_text_field(document: Seq<char>, field: Seq<char>) -> Option<Seq<char>>;

/// Parses `document` with `serde_json::from_str` and picks the text under
/// `field` with `Value::get` and `Value::as_str`. The result is a function
/// of the two texts alone, which the contract names.
#[verifier::external_body]
pub(crate) fn text_field(document: &str, field: &str) -> (value: Option<String>)
    ensures
        value is Some <==> json_text_field(document@, field@) is Some,
        value is Some ==> value->0@ == json_text_field(document@, field@)->0,
{
    match serde_json::from_str::<serde_json::Value>(document) {
        Ok(parsed) => parsed.get(field).and_then(|found| found.as_str()).map(|text| text.to_owned()),
        Err(_) => None,
    }
}

} // verus!
