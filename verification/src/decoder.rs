//! The incremental record decoder: one pending text, to which the lines of
//! an unfinished record are appended until the whole is well formed.

use crate::json::{is_valid_json, well_formed};
use vstd::prelude::*;
use vstd::string::StringExecFns;

verus! {

/// What one line does to the pending text: the pending text afterwards, and
/// the text of the record that the line completed, if it completed one.
pub struct Step {
    pub pending: Seq<char>,
    pub emitted: Option<Seq<char>>,
}

/// What becomes of a text once it is known whether it is a complete
/// record: a complete one is emitted and nothing is kept; any other is kept
/// and nothing is emitted.
pub open spec fn settle(text: Seq<char>, complete: bool) -> Step {
    if complete {
        Step { pending: Seq::empty(), emitted: Some(text) }
    } else {
        Step { pending: text, emitted: None }
    }
}

/// Feeding `line` while `pending` is held. The two are joined with nothing
/// between them, and the whole is a complete record where it is well
/// formed.
pub open spec fn step(pending: Seq<char>, line: Seq<char>) -> Step {
    settle(pending + line, well_formed(pending + line))
}

/// Settles the pending text `buf`, given whether it is a complete record.
/// A complete one is taken out of `buf` and returned; any other stays.
pub fn take_if_complete(buf: &mut String, complete: bool) -> (out: Option<String>)
    ensures
        final(buf)@ == settle(old(buf)@, complete).pending,
        match out {
            Some(text) => settle(old(buf)@, complete).emitted == Some(text@),
            None => settle(old(buf)@, complete).emitted is None,
        },
{
    if complete {
        let mut text = String::new();
        std::mem::swap(buf, &mut text);
        Some(text)
    } else {
        None
    }
}

/// Feeds one line to the decoder whose pending text is `buf`, and returns
/// the text of the record that this line completed, if it completed one.
///
/// A line that is well formed by itself while nothing is pending is
/// returned at once. Any other line is appended to `buf`; if `buf` is well
/// formed then, its text is returned and `buf` is emptied.
pub fn parse_line_bufferd(buf: &mut String, line: &str) -> (out: Option<String>)
    ensures
        final(buf)@ == step(old(buf)@, line@).pending,
        match out {
            Some(text) => step(old(buf)@, line@).emitted == Some(text@),
            None => step(old(buf)@, line@).emitted is None,
        },
{
    if buf.as_str().is_empty() && is_valid_json(line) {
        assert(old(buf)@ + line@ =~= line@);
        Some(line.to_owned())
    } else {
        buf.append(line);
        let complete = is_valid_json(buf.as_str());
        take_if_complete(buf, complete)
    }
}

} // verus!
