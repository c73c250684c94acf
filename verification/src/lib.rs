//! Reassembly of line-delimited JSON records from a stream of text chunks
//! whose boundaries are unrelated to the boundaries of the records.
//!
//! A [`drain::StreamDrain`] takes the chunks in, puts the lines together
//! that the chunks cut, and feeds each complete line to the decoder,
//! [`decoder::parse_line_bufferd`]. The decoder keeps the lines of a record
//! that is not complete yet and emits the text of each record once it is
//! well formed, which `serde_json` decides. The caller decodes each emitted
//! text into a [`record::Record`] and hands the outcome to
//! [`record::accept`].

pub mod decoder;
pub mod drain;
pub mod json;
pub mod lines;
pub mod record;
pub mod run;
pub mod stream;
