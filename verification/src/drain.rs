//! The draining of a stream: chunks of text come in, in order; the lines
//! that they complete go to the decoder; the texts of the records that
//! the decoder emits come out.

use crate::decoder::parse_line_bufferd;
use crate::lines::{complete_lines, lemma_tail_unbroken, lemma_unbroken, strip_cr, tail, unbroken};
use crate::record::DecodeError;
use crate::run::run;
use vstd::prelude::*;
use vstd::std_specs::iter::IteratorSpec;
use vstd::string::StrSliceExecFns;

verus! {

/// What a drain holds between two chunks.
pub struct DrainState {
    /// The start of the line that no line feed has ended yet.
    pub carry: Seq<char>,
    /// The decoder's pending text.
    pub pending: Seq<char>,
}

/// What a chunk does to a drain.
pub struct ChunkOutcome {
    pub state: DrainState,
    /// The texts of the records that the chunk's lines completed, in order.
    pub emitted: Seq<Seq<char>>,
}

/// The drain's state before any chunk.
pub open spec fn initial() -> DrainState {
    DrainState { carry: Seq::empty(), pending: Seq::empty() }
}

/// Taking in `chunk`: it continues the line that was carried over, the
/// lines that it completes are fed to the decoder, and what follows its
/// last line feed is carried over in turn.
pub open spec fn after_chunk(state: DrainState, chunk: Seq<char>) -> ChunkOutcome {
    let text = state.carry + chunk;
    let fed = run(state.pending, complete_lines(text));
    ChunkOutcome {
        state: DrainState { carry: tail(text), pending: fed.pending },
        emitted: fed.emitted,
    }
}

/// The line that is fed when the stream ends: what was carried over, if
/// there is any of it.
pub open spec fn last_line(state: DrainState) -> Seq<Seq<char>> {
    if state.carry.len() > 0 {
        seq![state.carry]
    } else {
        Seq::empty()
    }
}

/// The end of the stream: the line that was carried over is fed as the last
/// one. A text that is still pending then is a record cut short, which is
/// an error; otherwise the result is what the last line emitted.
pub open spec fn at_close(state: DrainState) -> Result<Seq<Seq<char>>, DecodeError> {
    let fed = run(state.pending, last_line(state));
    if fed.pending.len() > 0 {
        Err(DecodeError::IncompleteTrailingRecord)
    } else {
        Ok(fed.emitted)
    }
}

/// The views of the texts, in order.
pub open spec fn views(texts: Seq<String>) -> Seq<Seq<char>> {
    texts.map_values(|text: String| text@)
}

/// `String::push` of the standard library appends the character to the end
/// of the text: afterwards the text is what it was, followed by `ch`.
pub assume_specification[ String::push ](text: &mut String, ch: char)
    ensures
        final(text)@ == old(text)@.push(ch),
;

/// The line without the carriage return at its end, if it has one.
fn without_cr(line: &str) -> (out: &str)
    ensures
        out@ == strip_cr(line@),
{
    let n: usize = line.unicode_len();
    if n > 0 && line.get_char(n - 1) == '\r' {
        line.substring_char(0, n - 1)
    } else {
        line
    }
}

/// A drain: the line that is being put together from the chunks, and the
/// pending text of the decoder that the lines are fed to.
pub struct StreamDrain {
    carry: String,
    pending: String,
}

impl View for StreamDrain {
    type V = DrainState;

    closed spec fn view(&self) -> DrainState {
        DrainState { carry: self.carry@, pending: self.pending@ }
    }
}

impl StreamDrain {
    #[verifier::type_invariant]
    spec fn carry_is_one_line(&self) -> bool {
        unbroken(self.carry@)
    }

    /// A drain that has seen nothing yet.
    pub fn new() -> (drain: StreamDrain)
        ensures
            drain@ == initial(),
    {
        StreamDrain { carry: String::new(), pending: String::new() }
    }

    /// Takes in the next chunk of the stream, and returns the texts of the
    /// records that it completed, in order. What a drain carries over from
    /// one chunk to the next never holds a line feed.
    pub fn push_chunk(&mut self, chunk: &str) -> (texts: Vec<String>)
        ensures
            final(self)@ == after_chunk(old(self)@, chunk@).state,
            views(texts@) == after_chunk(old(self)@, chunk@).emitted,
            unbroken(old(self)@.carry),
            unbroken(final(self)@.carry),
    {
        proof {
            use_type_invariant(&*self);
        }
        let mut carry = String::new();
        let mut pending = String::new();
        std::mem::swap(&mut self.carry, &mut carry);
        std::mem::swap(&mut self.pending, &mut pending);
        let ghost start = DrainState { carry: carry@, pending: pending@ };
        let mut texts: Vec<String> = Vec::new();
        let mut chars = chunk.chars();
        let ghost mut done: int = 0;
        proof {
            lemma_unbroken(start.carry);
            assert(start.carry + chunk@.take(0) =~= start.carry);
        }
        loop
            invariant
                0 <= done <= chunk@.len(),
                chars.remaining() == chunk@.skip(done),
                carry@ == tail(start.carry + chunk@.take(done)),
                pending@ == run(start.pending, complete_lines(start.carry + chunk@.take(done))).pending,
                views(texts@) == run(
                    start.pending,
                    complete_lines(start.carry + chunk@.take(done)),
                ).emitted,
            ensures
                done == chunk@.len(),
            decreases chunk@.len() - done,
        {
            match chars.next() {
                None => {
                    break ;
                },
                Some(c) => {
                    proof {
                        let before = start.carry + chunk@.take(done);
                        let now = start.carry + chunk@.take(done + 1);
                        assert(c == chunk@[done]);
                        assert(now.drop_last() =~= before);
                        assert(now.last() == c);
                        assert(chunk@.skip(done).drop_first() =~= chunk@.skip(done + 1));
                    }
                    if c == '\n' {
                        let line = without_cr(carry.as_str());
                        let ghost lines_before = complete_lines(start.carry + chunk@.take(done));
                        let ghost texts_before = texts@;
                        proof {
                            assert(lines_before.push(line@).drop_last() =~= lines_before);
                            assert(lines_before.push(line@).last() == line@);
                        }
                        match parse_line_bufferd(&mut pending, line) {
                            Some(text) => {
                                texts.push(text);
                                assert(views(texts@) =~= views(texts_before).push(text@));
                            },
                            None => {},
                        }
                        carry = String::new();
                    } else {
                        carry.push(c);
                    }
                    proof {
                        done = done + 1;
                    }
                },
            }
        }
        proof {
            lemma_tail_unbroken(start.carry + chunk@);
        }
        self.carry = carry;
        self.pending = pending;
        texts
    }

    /// Ends the stream. The line that no line feed has ended is the last
    /// one that is fed. Returns the texts of the records that it completed,
    /// or the error that the stream ended within a record.
    pub fn close(self) -> (r: Result<Vec<String>, DecodeError>)
        ensures
            match at_close(self@) {
                Ok(emitted) => r matches Ok(texts) && views(texts@) == emitted,
                Err(error) => r == Err::<Vec<String>, DecodeError>(error),
            },
    {
        let carry = self.carry;
        let mut pending = self.pending;
        let mut texts: Vec<String> = Vec::new();
        if !carry.as_str().is_empty() {
            proof {
                reveal_with_fuel(run, 2);
                assert(seq![carry@].drop_last() =~= Seq::<Seq<char>>::empty());
                assert(seq![carry@].last() == carry@);
            }
            match parse_line_bufferd(&mut pending, carry.as_str()) {
                Some(text) => {
                    texts.push(text);
                    assert(views(texts@) =~= seq![text@]);
                },
                None => {},
            }
        }
        assert(views(texts@) =~= run(self.pending@, last_line(self@)).emitted);
        if pending.as_str().is_empty() {
            Ok(texts)
        } else {
            Err(DecodeError::IncompleteTrailingRecord)
        }
    }
}

} // verus!
