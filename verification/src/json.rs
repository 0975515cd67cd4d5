//! Lists of names as pretty-printed JSON.

use crate::error::{fails_with, ErrorKind, IconError};
use vstd::prelude::*;

verus! {

/// `serde_json::Error`: what the serialiser gives where it fails; nothing
/// is known of what it holds.
#[verifier::external_type_specification]
#[verifier::external_body]
pub struct ExJsonError(serde_json::Error);

/// The pretty-printed JSON array of these strings, as
/// `serde_json::to_string_pretty` writes it.
pub uninterp spec fn pretty_json(names: Seq<Seq<char>>) -> Seq<char>;

/// Calls `serde_json::to_string_pretty` on the names. Claimed: the call
/// succeeds, and the text that comes back is the same for the same names,
/// and is named [`pretty_json`]. Serialisation fails only where an impl of
/// `Serialize` fails or a map has keys that are no strings; a list of
/// strings written into memory has neither.
#[verifier::external_body]
fn to_pretty_json(names: &Vec<String>) -> (r: Result<String, serde_json::Error>)
    ensures
        match r {
            Ok(text) => text@ == pretty_json(names.deep_view()),
            Err(_) => false,
        },
{
    serde_json::to_string_pretty(names)
}

/// The text of a `serde_json::Error`, as its `Display` gives it. Nothing is
/// claimed of the text.
#[verifier::external_body]
fn json_error_text(error: &serde_json::Error) -> String {
    format!("{}", error)
}

/// What the serialiser gave, as this library's result: its text, or a
/// `ParseFailure` with the serialiser's message.
pub fn rendered(outcome: Result<String, serde_json::Error>) -> (r: Result<String, IconError>)
    ensures
        match outcome {
            Ok(text) => r == Ok::<String, IconError>(text),
            Err(_) => fails_with(r, ErrorKind::ParseFailure),
        },
{
    match outcome {
        Ok(text) => Ok(text),
        Err(error) => Err(
            IconError { kind: ErrorKind::ParseFailure, detail: json_error_text(&error) },
        ),
    }
}

/// The names as a pretty-printed JSON array of strings: [`pretty_json`] of
/// the names. The call succeeds.
pub fn names_to_json(names: &Vec<String>) -> (r: Result<String, IconError>)
    ensures
        r matches Ok(text) && text@ == pretty_json(names.deep_view()),
{
    rendered(to_pretty_json(names))
}

} // verus!
