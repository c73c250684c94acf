//! Whole streams: what a drain makes of a sequence of chunks, and why the
//! places at which the stream was cut into chunks do not matter.

use crate::drain::{after_chunk, at_close, initial, last_line, ChunkOutcome, DrainState};
use crate::json::well_formed;
use crate::lines::{
    complete_lines, lemma_split_append, lemma_unbroken, lines, one_per_line, tail, unbroken,
};
use crate::record::DecodeError;
use crate::run::{concat, law_aligned_lines, lemma_run_append, run};
use vstd::prelude::*;

verus! {

/// Taking in `chunks` one after the other.
pub open spec fn after_chunks(state: DrainState, chunks: Seq<Seq<char>>) -> ChunkOutcome
    decreases chunks.len(),
{
    if chunks.len() == 0 {
        ChunkOutcome { state, emitted: Seq::empty() }
    } else {
        let before = after_chunks(state, chunks.drop_last());
        let last = after_chunk(before.state, chunks.last());
        ChunkOutcome { state: last.state, emitted: before.emitted + last.emitted }
    }
}

/// What a stream of `chunks` yields from its first chunk to its end: the
/// texts of all its records in order, or the error that it ended within a
/// record.
pub open spec fn drained(chunks: Seq<Seq<char>>) -> Result<Seq<Seq<char>>, DecodeError> {
    let taken = after_chunks(initial(), chunks);
    match at_close(taken.state) {
        Ok(last) => Ok(taken.emitted + last),
        Err(error) => Err(error),
    }
}

/// What the text of a whole stream holds: the records that its lines make
/// up, or the error that a record is still pending after its last line.
pub open spec fn decoded(text: Seq<char>) -> Result<Seq<Seq<char>>, DecodeError> {
    let fed = run(Seq::empty(), lines(text));
    if fed.pending.len() > 0 {
        Err(DecodeError::IncompleteTrailingRecord)
    } else {
        Ok(fed.emitted)
    }
}

/// A text that fits on one line and comes back from it unchanged: it holds
/// no line feed and does not end in a carriage return.
pub open spec fn fits_one_line(text: Seq<char>) -> bool {
    unbroken(text) && !(text.len() > 0 && text.last() == '\r')
}

/// A drain takes in several chunks as it takes in the one chunk that they
/// make up together.
pub proof fn law_chunking_is_immaterial(state: DrainState, chunks: Seq<Seq<char>>)
    requires
        unbroken(state.carry),
    ensures
        after_chunks(state, chunks) == after_chunk(state, concat(chunks)),
    decreases chunks.len(),
{
    if chunks.len() == 0 {
        lemma_unbroken(state.carry);
        assert(state.carry + concat(chunks) =~= state.carry);
    } else {
        let before = concat(chunks.drop_last());
        let last = chunks.last();
        law_chunking_is_immaterial(state, chunks.drop_last());
        lemma_split_append(state.carry + before, last);
        lemma_run_append(
            state.pending,
            complete_lines(state.carry + before),
            complete_lines(tail(state.carry + before) + last),
        );
        assert(state.carry + (before + last) =~= (state.carry + before) + last);
    }
}

/// However a stream is cut into chunks, draining it yields what its text
/// holds.
pub proof fn law_drained_is_decoded(chunks: Seq<Seq<char>>)
    ensures
        drained(chunks) == decoded(concat(chunks)),
{
    let text = concat(chunks);
    law_chunking_is_immaterial(initial(), chunks);
    assert(Seq::<char>::empty() + text =~= text);
    let taken = after_chunk(initial(), text);
    lemma_run_append(Seq::empty(), complete_lines(text), last_line(taken.state));
    assert(lines(text) =~= complete_lines(text) + last_line(taken.state));
}

/// Where every line of a stream's text is a well-formed record, draining
/// the stream yields exactly these lines, in order, however the stream was
/// cut into chunks.
pub proof fn law_no_loss_in_any_chunking(chunks: Seq<Seq<char>>)
    requires
        forall|i: int|
            0 <= i < lines(concat(chunks)).len() ==> well_formed(#[trigger] lines(concat(chunks))[i]),
    ensures
        drained(chunks) == Ok::<Seq<Seq<char>>, DecodeError>(lines(concat(chunks))),
{
    let all = lines(concat(chunks));
    law_drained_is_decoded(chunks);
    law_aligned_lines(all, all.len() as int);
    assert(all.take(all.len() as int) =~= all);
}

/// A stream that ends while a record is pending is an error, however it
/// was cut into chunks, and no record is made of the pending text.
pub proof fn law_cut_stream_is_an_error(chunks: Seq<Seq<char>>)
    requires
        run(Seq::empty(), lines(concat(chunks))).pending.len() > 0,
    ensures
        drained(chunks) == Err::<Seq<Seq<char>>, DecodeError>(
            DecodeError::IncompleteTrailingRecord,
        ),
{
    law_drained_is_decoded(chunks);
}

/// Records that each fit on one line, written one per line, are the lines
/// of the text so written.
pub proof fn law_lines_of_records(records: Seq<Seq<char>>)
    requires
        forall|i: int| 0 <= i < records.len() ==> fits_one_line(#[trigger] records[i]),
    ensures
        complete_lines(one_per_line(records)) == records,
        tail(one_per_line(records)) == Seq::<char>::empty(),
        lines(one_per_line(records)) == records,
    decreases records.len(),
{
    if records.len() == 0 {
        assert(complete_lines(one_per_line(records)) =~= records);
    } else {
        let before = one_per_line(records.drop_last());
        let last = records.last();
        law_lines_of_records(records.drop_last());
        lemma_split_append(before, last);
        lemma_unbroken(last);
        assert(Seq::<char>::empty() + last =~= last);
        assert((before + last.push('\n')).drop_last() =~= before + last);
        assert(complete_lines(before + last) =~= records.drop_last());
        assert(records.drop_last().push(last) =~= records);
    }
}

/// Records that are well formed and fit on one line each, written one per
/// line, come out of the drain each once, whole and in order, however the
/// text was cut into chunks, and the stream ends without an error.
pub proof fn law_records_survive_chunking(records: Seq<Seq<char>>, chunks: Seq<Seq<char>>)
    requires
        forall|i: int| 0 <= i < records.len() ==> well_formed(#[trigger] records[i]),
        forall|i: int| 0 <= i < records.len() ==> fits_one_line(#[trigger] records[i]),
        concat(chunks) == one_per_line(records),
    ensures
        drained(chunks) == Ok::<Seq<Seq<char>>, DecodeError>(records),
{
    law_lines_of_records(records);
    law_no_loss_in_any_chunking(chunks);
}

} // verus!
