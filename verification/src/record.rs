//! Records, the ways in which decoding fails, and the collecting of what
//! was decoded.

use vstd::prelude::*;

verus! {

/// One decoded record.
#[derive(Debug)]
pub struct Record {
    pub id: i32,
    pub name: String,
}

/// Why the decoding of a stream stopped.
#[derive(Clone, Copy, Debug, PartialEq, Eq, Structural)]
pub enum DecodeError {
    /// A text that was emitted as a record is not JSON after all.
    StructuralDecode,
    /// A text is JSON but has not the shape of a record.
    ShapeMismatch,
    /// The stream ended in the middle of a record.
    IncompleteTrailingRecord,
}

/// How the parsing of a record's text failed, in the categories by which
/// `serde_json` classifies its errors.
#[derive(Clone, Copy, Debug, PartialEq, Eq, Structural)]
pub enum ParseFailure {
    /// The bytes could not be read.
    Io,
    /// The text is not JSON.
    Syntax,
    /// The text is JSON of another shape than the one asked for.
    Data,
    /// The text ended before the value did.
    Eof,
}

/// The error that a parse failure stands for: data of the wrong shape is a
/// shape mismatch, every other failure is structural.
pub open spec fn error_of(failure: ParseFailure) -> DecodeError {
    match failure {
        ParseFailure::Data => DecodeError::ShapeMismatch,
        _ => DecodeError::StructuralDecode,
    }
}

impl ParseFailure {
    /// The error that this failure is reported as.
    pub fn to_error(self) -> (error: DecodeError)
        ensures
            error == error_of(self),
    {
        match self {
            ParseFailure::Data => DecodeError::ShapeMismatch,
            ParseFailure::Io => DecodeError::StructuralDecode,
            ParseFailure::Syntax => DecodeError::StructuralDecode,
            ParseFailure::Eof => DecodeError::StructuralDecode,
        }
    }
}

/// Takes the outcome of decoding one emitted text. A record is appended to
/// `records`; a failure is returned as the error that ends the stream, and
/// `records` stays as it was.
pub fn accept(records: &mut Vec<Record>, decoded: Result<Record, ParseFailure>) -> (r: Result<
    (),
    DecodeError,
>)
    ensures
        match decoded {
            Ok(record) => r is Ok && final(records)@ == old(records)@.push(record),
            Err(failure) => r == Err::<(), DecodeError>(error_of(failure)) && final(records)@
                == old(records)@,
        },
{
    match decoded {
        Ok(record) => {
            records.push(record);
            Ok(())
        },
        Err(failure) => Err(failure.to_error()),
    }
}

} // verus!
