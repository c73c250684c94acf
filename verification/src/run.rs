//! What the decoder does with a whole sequence of lines, and the laws that
//! hold of it.

use crate::decoder::step;
use crate::json::well_formed;
use vstd::prelude::*;

verus! {

/// The outcome of feeding a sequence of lines: the pending text at the end,
/// and the texts of the records that were emitted, in the order of emission.
pub struct Trace {
    pub pending: Seq<char>,
    pub emitted: Seq<Seq<char>>,
}

/// Feeds `lines` in order to a decoder that holds `pending`.
pub open spec fn run(pending: Seq<char>, lines: Seq<Seq<char>>) -> Trace
    decreases lines.len(),
{
    if lines.len() == 0 {
        Trace { pending, emitted: Seq::empty() }
    } else {
        let before = run(pending, lines.drop_last());
        let last = step(before.pending, lines.last());
        Trace {
            pending: last.pending,
            emitted: match last.emitted {
                Some(text) => before.emitted.push(text),
                None => before.emitted,
            },
        }
    }
}

/// The fragments joined in order, with nothing between them.
pub open spec fn concat(fragments: Seq<Seq<char>>) -> Seq<char>
    decreases fragments.len(),
{
    if fragments.len() == 0 {
        Seq::empty()
    } else {
        concat(fragments.drop_last()) + fragments.last()
    }
}

/// The fragments of all groups, in order.
pub open spec fn flatten(groups: Seq<Seq<Seq<char>>>) -> Seq<Seq<char>>
    decreases groups.len(),
{
    if groups.len() == 0 {
        Seq::empty()
    } else {
        flatten(groups.drop_last()) + groups.last()
    }
}

/// A group of fragments that makes up exactly one record: the whole is well
/// formed, and no shorter run of its fragments, taken from the start, is.
pub open spec fn one_record(fragments: Seq<Seq<char>>) -> bool {
    &&& well_formed(concat(fragments))
    &&& forall|k: int| 0 < k < fragments.len() ==> !well_formed(#[trigger] concat(fragments.take(k)))
}

/// Feeding `first` and then `rest` is feeding `rest` to the decoder as
/// `first` left it; the emitted texts follow one another.
pub proof fn lemma_run_append(pending: Seq<char>, first: Seq<Seq<char>>, rest: Seq<Seq<char>>)
    ensures
        run(pending, first + rest).pending == run(run(pending, first).pending, rest).pending,
        run(pending, first + rest).emitted == run(pending, first).emitted + run(
            run(pending, first).pending,
            rest,
        ).emitted,
    decreases rest.len(),
{
    if rest.len() == 0 {
        assert(first + rest =~= first);
    } else {
        lemma_run_append(pending, first, rest.drop_last());
        assert((first + rest).drop_last() =~= first + rest.drop_last());
        assert((first + rest).last() == rest.last());
    }
}

/// A text that is not well formed stays so: whatever is fed, the pending
/// text is never a complete record.
pub proof fn law_pending_is_incomplete(pending: Seq<char>, lines: Seq<Seq<char>>)
    requires
        !well_formed(pending),
    ensures
        !well_formed(run(pending, lines).pending),
    decreases lines.len(),
{
    if lines.len() > 0 {
        law_pending_is_incomplete(pending, lines.drop_last());
    }
}

/// A line that completes a record leaves nothing pending, and the record
/// is all that was pending followed by the line.
pub proof fn law_emitting_leaves_nothing_pending(pending: Seq<char>, line: Seq<char>)
    requires
        step(pending, line).emitted is Some,
    ensures
        step(pending, line).pending == Seq::<char>::empty(),
        step(pending, line).emitted == Some(pending + line),
        well_formed(pending + line),
{
}

/// An empty line completes nothing and leaves the pending text as it was.
pub proof fn law_empty_line(pending: Seq<char>)
    requires
        !well_formed(pending),
    ensures
        step(pending, Seq::empty()).pending == pending,
        step(pending, Seq::empty()).emitted is None,
{
    assert(pending + Seq::<char>::empty() =~= pending);
}

/// Where every line is well formed by itself, each line is emitted as it is
/// fed, and nothing is pending after any of them.
pub proof fn law_aligned_lines(lines: Seq<Seq<char>>, k: int)
    requires
        forall|i: int| 0 <= i < lines.len() ==> well_formed(#[trigger] lines[i]),
        0 <= k <= lines.len(),
    ensures
        run(Seq::empty(), lines.take(k)).pending == Seq::<char>::empty(),
        run(Seq::empty(), lines.take(k)).emitted == lines.take(k),
    decreases k,
{
    if k > 0 {
        law_aligned_lines(lines, k - 1);
        assert(lines.take(k).drop_last() =~= lines.take(k - 1));
        assert(lines.take(k).last() == lines[k - 1]);
        assert(Seq::<char>::empty() + lines[k - 1] =~= lines[k - 1]);
        assert(lines.take(k - 1).push(lines[k - 1]) =~= lines.take(k));
    } else {
        assert(lines.take(0) =~= Seq::<Seq<char>>::empty());
    }
}

/// While a record is being put together from its fragments, nothing is
/// emitted and the pending text is what was fed so far.
pub proof fn lemma_record_in_progress(fragments: Seq<Seq<char>>, k: int)
    requires
        forall|j: int| 0 < j < fragments.len() ==> !well_formed(#[trigger] concat(fragments.take(j))),
        0 <= k < fragments.len(),
    ensures
        run(Seq::empty(), fragments.take(k)).pending == concat(fragments.take(k)),
        run(Seq::empty(), fragments.take(k)).emitted == Seq::<Seq<char>>::empty(),
    decreases k,
{
    if k > 0 {
        lemma_record_in_progress(fragments, k - 1);
        assert(fragments.take(k).drop_last() =~= fragments.take(k - 1));
    } else {
        assert(fragments.take(0) =~= Seq::<Seq<char>>::empty());
    }
}

/// A record fed in fragments is emitted once, whole, by its last fragment,
/// and nothing is emitted or lost before: until then the pending text is
/// what was fed so far.
pub proof fn law_split_record(fragments: Seq<Seq<char>>)
    requires
        one_record(fragments),
    ensures
        forall|k: int|
            0 <= k < fragments.len() ==> (#[trigger] run(Seq::empty(), fragments.take(k))) == (Trace {
                pending: concat(fragments.take(k)),
                emitted: Seq::empty(),
            }),
        run(Seq::empty(), fragments) == (Trace {
            pending: Seq::empty(),
            emitted: seq![concat(fragments)],
        }),
{
    assert forall|k: int| 0 <= k < fragments.len() implies (#[trigger] run(
        Seq::empty(),
        fragments.take(k),
    )) == (Trace { pending: concat(fragments.take(k)), emitted: Seq::empty() }) by {
        lemma_record_in_progress(fragments, k);
    }
    let n: int = fragments.len() as int;
    lemma_record_in_progress(fragments, n - 1);
    assert(fragments.drop_last() =~= fragments.take(n - 1));
    assert(Seq::<Seq<char>>::empty().push(concat(fragments)) =~= seq![concat(fragments)]);
}

/// The records of a stream, each fed in its own fragments, are emitted
/// each once, whole and in order, and nothing is pending at the end.
pub proof fn law_no_loss_no_duplication(groups: Seq<Seq<Seq<char>>>)
    requires
        forall|i: int| 0 <= i < groups.len() ==> one_record(#[trigger] groups[i]),
    ensures
        run(Seq::empty(), flatten(groups)).pending == Seq::<char>::empty(),
        run(Seq::empty(), flatten(groups)).emitted == Seq::new(
            groups.len(),
            |i: int| concat(groups[i]),
        ),
    decreases groups.len(),
{
    let records = Seq::new(groups.len(), |i: int| concat(groups[i]));
    if groups.len() == 0 {
        assert(run(Seq::empty(), flatten(groups)).emitted =~= records);
    } else {
        let before = groups.drop_last();
        law_no_loss_no_duplication(before);
        law_split_record(groups.last());
        lemma_run_append(Seq::empty(), flatten(before), groups.last());
        assert(run(Seq::empty(), flatten(groups)).emitted =~= records);
    }
}

} // verus!
