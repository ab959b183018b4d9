//! What this library takes on trust from `serde_json`.
//!
//! A parsed document is carried as `serde_json::Value`, of which Verus sees
//! nothing. Each reading of it is a function of the value alone, so each has a
//! name here, and the functions of this module do nothing but make the call and
//! equate its result with that name. Nothing else is claimed of the names.
use vstd::prelude::*;

verus! {

#[verifier::external_type_specification]
#[verifier::external_body]
pub struct ExValue(serde_json::Value);

#[verifier::external_type_specification]
#[verifier::external_body]
pub struct ExJsonError(serde_json::Error);

/// The document that `serde_json::from_str` reads from a text; `None` where it
/// reports an error.
pub uninterp spec fn json_document(text: Seq<char>) -> Option<serde_json::Value>;

/// What `serde_json::Value::get` finds under a string key: the member of that
/// name if the value is an object that has one.
pub uninterp spec fn json_member(value: serde_json::Value, key: Seq<char>) -> Option<
    serde_json::Value,
>;

/// What `serde_json::Value::as_array` gives: the elements, if the value is an
/// array.
pub uninterp spec fn json_items(value: serde_json::Value) -> Option<Seq<serde_json::Value>>;

/// What `serde_json::Value::as_str` gives: the characters, if the value is a
/// string.
pub uninterp spec fn json_text(value: serde_json::Value) -> Option<Seq<char>>;

/// The bits of the double that `serde_json::Value::as_f64` gives, if the value
/// is a number.
pub uninterp spec fn json_number(value: serde_json::Value) -> Option<u64>;

/// What the `Display` of `serde_json::Value` writes for a string value: the
/// text as a JSON string, in double quotes and escaped.
pub uninterp spec fn json_quoted(text: Seq<char>) -> Seq<char>;

/// Calls `serde_json::from_str` for a `Value`. Trusted: the outcome is
/// `json_document` of the text, an error standing for `None`.
#[verifier::external_body]
pub(crate) fn parse(text: &str) -> (r: Result<serde_json::Value, serde_json::Error>)
    ensures
        match r {
            Ok(doc) => json_document(text@) == Some(doc),
            Err(_) => json_document(text@) is None,
        },
{
    serde_json::from_str::<serde_json::Value>(text)
}

/// Calls `serde_json::Value::get` with a string key. Trusted: the outcome is
/// `json_member` of the value and the key.
#[verifier::external_body]
pub(crate) fn member<'a>(value: &'a serde_json::Value, key: &str) -> (r: Option<
    &'a serde_json::Value,
>)
    ensures
        match r {
            Some(found) => json_member(*value, key@) == Some(*found),
            None => json_member(*value, key@) is None,
        },
{
    value.get(key)
}

/// Calls `serde_json::Value::as_array`. Trusted: the outcome is `json_items` of
/// the value.
#[verifier::external_body]
pub(crate) fn items<'a>(value: &'a serde_json::Value) -> (r: Option<&'a Vec<serde_json::Value>>)
    ensures
        match r {
            Some(list) => json_items(*value) == Some(list@),
            None => json_items(*value) is None,
        },
{
    value.as_array()
}

/// Calls `serde_json::Value::as_str`. Trusted: the outcome is `json_text` of
/// the value.
#[verifier::external_body]
pub(crate) fn str_of<'a>(value: &'a serde_json::Value) -> (r: Option<&'a str>)
    ensures
        match r {
            Some(s) => json_text(*value) == Some(s@),
            None => json_text(*value) is None,
        },
{
    value.as_str()
}

/// Calls `serde_json::Value::as_f64` and hands the double on by its bits.
/// Trusted: the outcome is `json_number` of the value.
#[verifier::external_body]
pub(crate) fn number(value: &serde_json::Value) -> (r: Option<u64>)
    ensures
        r == json_number(*value),
{
    match value.as_f64() {
        Some(x) => Some(x.to_bits()),
        None => None,
    }
}

/// Makes a `serde_json::Value` of a string and calls its `Display`, as
/// `to_string` does. Trusted: the outcome is `json_quoted` of the text.
#[verifier::external_body]
pub(crate) fn quoted(text: &str) -> (r: String)
    ensures
        r@ == json_quoted(text@),
{
    serde_json::Value::String(text.to_owned()).to_string()
}

} // verus!
