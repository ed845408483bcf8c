//! How arguments are handed from the subcommand to the compiler call, as JSON.

use crate::text::texts;
use vstd::prelude::*;

verus! {

/// An error of `serde_json`.
#[verifier::external_type_specification]
#[verifier::external_body]
pub struct ExJsonError(serde_json::Error);

/// The JSON text that `serde_json::to_string` gives for a list of strings.
pub uninterp spec fn args_json(args: Seq<Seq<char>>) -> Seq<char>;

/// The list of strings that `serde_json::from_str` reads from a text; none where it fails.
pub uninterp spec fn json_args(text: Seq<char>) -> Option<Seq<Seq<char>>>;

/// `serde_json::to_string` on a list of strings. It writes into memory and the strings are
/// plain, so nothing in it can fail. The text depends on the strings alone, and
/// `serde_json::from_str` reads the same strings back from it.
#[verifier::external_body]
fn to_json(args: &Vec<String>) -> (r: String)
    ensures
        r@ == args_json(texts(args@)),
        json_args(r@) == Some(texts(args@)),
{
    serde_json::to_string(args).expect("failed to serialize args")
}

/// `serde_json::from_str` for a list of strings. What it gives depends on the text alone.
#[verifier::external_body]
fn from_json(text: &str) -> (r: Result<Vec<String>, serde_json::Error>)
    ensures
        match r {
            Ok(args) => json_args(text@) == Some(texts(args@)),
            Err(_) => json_args(text@) is None,
        },
{
    serde_json::from_str(text)
}

/// The text does not hold a list of arguments.
#[derive(Clone, Copy, PartialEq, Eq, Structural, Debug)]
pub struct DecodeError;

/// A list of arguments as text, from which the same arguments are read back.
pub fn encode_args(args: &Vec<String>) -> (r: String)
    ensures
        r@ == args_json(texts(args@)),
        json_args(r@) == Some(texts(args@)),
{
    to_json(args)
}

/// The list of arguments that a text holds.
pub fn decode_args(text: &str) -> (r: Result<Vec<String>, DecodeError>)
    ensures
        match r {
            Ok(args) => json_args(text@) == Some(texts(args@)),
            Err(_) => json_args(text@) is None,
        },
{
    match from_json(text) {
        Ok(args) => Ok(args),
        Err(_) => Err(DecodeError),
    }
}

} // verus!
