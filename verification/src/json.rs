//! JSON bodies, parsed by `serde_json`.
//!
//! A parsed value is opaque here: it is handed through to the caller.

use vstd::prelude::*;

verus! {

/// Makes `serde_json::Value` known as a type whose inside is not looked at.
#[verifier::external_type_specification]
#[verifier::external_body]
pub struct ExValue(serde_json::Value);

/// Makes `serde_json::Error` known as a type whose inside is not looked at.
#[verifier::external_type_specification]
#[verifier::external_body]
pub struct ExError(serde_json::Error);

/// What `serde_json::from_str` makes of a text: the value that it reads
/// from the text, or nothing where it fails.
pub uninterp spec fn json_of(text: Seq<char>) -> Option<serde_json::Value>;

/// What `serde_json::Value::get` finds in a value under a name: the member of
/// that name when the value is an object that has it, else nothing.
pub uninterp spec fn member_of(value: serde_json::Value, name: Seq<char>) -> Option<
    serde_json::Value,
>;

/// Parses a text as one JSON value.
///
/// Trusted: the body calls `serde_json::from_str` for a `Value`, which reads
/// one value and fails when the text holds none, or more than blanks after
/// it.  Its outcome depends on the text alone; the contract gives it its name.
#[verifier::external_body]
fn from_text(text: &str) -> (r: Result<serde_json::Value, serde_json::Error>)
    ensures
        match r {
            Ok(value) => json_of(text@) == Some(value),
            Err(_) => json_of(text@) is None,
        },
{
    serde_json::from_str(text)
}

/// Looks up a member of a JSON value by name.
///
/// Trusted: the body calls `serde_json::Value::get` with a string index and
/// clones what it finds.  The outcome depends on the value and the name
/// alone; the contract gives it its name.
#[verifier::external_body]
fn member(value: &serde_json::Value, name: &str) -> (r: Option<serde_json::Value>)
    ensures
        r == member_of(*value, name@),
{
    value.get(name).cloned()
}

/// The value of a parse: the parsed value, or nothing when parsing failed.
pub fn parsed(outcome: Result<serde_json::Value, serde_json::Error>) -> (r: Option<
    serde_json::Value,
>)
    ensures
        r == match outcome {
            Ok(value) => Some(value),
            Err(_) => None,
        },
{
    match outcome {
        Ok(value) => Some(value),
        Err(_) => None,
    }
}

/// The JSON value that `text` denotes, if it denotes one.
pub fn parse(text: &str) -> (r: Option<serde_json::Value>)
    ensures
        r == json_of(text@),
{
    parsed(from_text(text))
}

/// The member `name` of a parsed body, if there is a body and it has one.
pub fn field(json: Option<serde_json::Value>, name: &str) -> (r: Option<serde_json::Value>)
    ensures
        r == match json {
            Some(value) => member_of(value, name@),
            None => None,
        },
{
    match json {
        Some(value) => member(&value, name),
        None => None,
    }
}

} // verus!
