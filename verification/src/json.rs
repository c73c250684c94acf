//! The JSON syntax check, which `serde_json` performs.

use serde::de::IgnoredAny;
use vstd::prelude::*;

verus! {

/// Whether `serde_json` parses `text` as one JSON value of any shape,
/// surrounded by nothing but whitespace.
pub uninterp spec fn json_parses(text: Seq<char>) -> bool;

/// A text is well formed when it is not empty and is one JSON value.
pub open spec fn well_formed(text: Seq<char>) -> bool {
    text.len() > 0 && json_parses(text)
}

/// Calls `serde_json::from_str` with `serde::de::IgnoredAny` as the target,
/// which runs the parser over the whole text and builds no value. The result
/// says whether the parse succeeded. It depends on the text alone, and the
/// empty text never parses: the parser reports the end of input where it
/// expects a value.
#[verifier::external_body]
fn parses_as_json(data: &str) -> (ok: bool)
    ensures
        ok == json_parses(data@),
        ok ==> data@.len() > 0,
{
    serde_json::from_str::<IgnoredAny>(data).is_ok()
}

/// Tells whether `data` is syntactically one JSON value, whatever its shape.
pub fn is_valid_json(data: &str) -> (ok: bool)
    ensures
        ok == well_formed(data@),
{
    parses_as_json(data)
}

} // verus!
