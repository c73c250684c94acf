//! Lines of a text that arrives in pieces: the lines that a line feed has
//! ended, and the rest, which the next piece may continue.

use vstd::prelude::*;

verus! {

/// The text after the last line feed of `text`, or all of `text` where it
/// has none: the start of a line that has not ended yet.
pub open spec fn tail(text: Seq<char>) -> Seq<char>
    decreases text.len(),
{
    if text.len() == 0 || text.last() == '\n' {
        Seq::empty()
    } else {
        tail(text.drop_last()).push(text.last())
    }
}

/// A line without the carriage return at its end, if it has one.
pub open spec fn strip_cr(line: Seq<char>) -> Seq<char> {
    if line.len() > 0 && line.last() == '\r' {
        line.drop_last()
    } else {
        line
    }
}

/// The lines of `text` that a line feed ends, in order, each without its
/// line feed and without a carriage return just before it.
pub open spec fn complete_lines(text: Seq<char>) -> Seq<Seq<char>>
    decreases text.len(),
{
    if text.len() == 0 {
        Seq::empty()
    } else if text.last() == '\n' {
        complete_lines(text.drop_last()).push(strip_cr(tail(text.drop_last())))
    } else {
        complete_lines(text.drop_last())
    }
}

/// All lines of `text`: those that a line feed ends, and the text after
/// the last line feed where there is any.
pub open spec fn lines(text: Seq<char>) -> Seq<Seq<char>> {
    if tail(text).len() > 0 {
        complete_lines(text).push(tail(text))
    } else {
        complete_lines(text)
    }
}

/// The lines written one per line, a line feed after each.
pub open spec fn one_per_line(lines: Seq<Seq<char>>) -> Seq<char>
    decreases lines.len(),
{
    if lines.len() == 0 {
        Seq::empty()
    } else {
        one_per_line(lines.drop_last()) + lines.last().push('\n')
    }
}

/// No line feed occurs in `text`.
pub open spec fn unbroken(text: Seq<char>) -> bool {
    forall|i: int| 0 <= i < text.len() ==> text[i] != '\n'
}

/// A text without a line feed is its own tail and has no complete line.
pub proof fn lemma_unbroken(text: Seq<char>)
    requires
        unbroken(text),
    ensures
        tail(text) == text,
        complete_lines(text) == Seq::<Seq<char>>::empty(),
    decreases text.len(),
{
    if text.len() > 0 {
        lemma_unbroken(text.drop_last());
        assert(text.drop_last().push(text.last()) =~= text);
    } else {
        assert(text =~= Seq::empty());
    }
}

/// The tail holds no line feed.
pub proof fn lemma_tail_unbroken(text: Seq<char>)
    ensures
        unbroken(tail(text)),
    decreases text.len(),
{
    if text.len() > 0 && text.last() != '\n' {
        lemma_tail_unbroken(text.drop_last());
    }
}

/// Splitting `first + rest` is splitting `first` and then going on with
/// `rest` from the tail that `first` left.
pub proof fn lemma_split_append(first: Seq<char>, rest: Seq<char>)
    ensures
        complete_lines(first + rest) == complete_lines(first) + complete_lines(tail(first) + rest),
        tail(first + rest) == tail(tail(first) + rest),
    decreases rest.len(),
{
    if rest.len() == 0 {
        lemma_tail_unbroken(first);
        lemma_unbroken(tail(first));
        assert(first + rest =~= first);
        assert(tail(first) + rest =~= tail(first));
        assert(complete_lines(first) + Seq::<Seq<char>>::empty() =~= complete_lines(first));
    } else {
        lemma_split_append(first, rest.drop_last());
        assert((first + rest).drop_last() =~= first + rest.drop_last());
        assert((tail(first) + rest).drop_last() =~= tail(first) + rest.drop_last());
        assert((first + rest).last() == rest.last());
        assert((tail(first) + rest).last() == rest.last());
        if rest.last() == '\n' {
            let line = strip_cr(tail(first + rest.drop_last()));
            assert((complete_lines(first) + complete_lines(tail(first) + rest.drop_last())).push(
                line,
            ) =~= complete_lines(first) + complete_lines(tail(first) + rest.drop_last()).push(
                line,
            ));
        }
    }
}

/// The tail is the end of the text.
pub proof fn lemma_tail_is_suffix(text: Seq<char>)
    ensures
        tail(text).len() <= text.len(),
        tail(text) == text.skip(text.len() - tail(text).len()),
    decreases text.len(),
{
    if text.len() > 0 && text.last() != '\n' {
        let before = text.drop_last();
        lemma_tail_is_suffix(before);
        assert(tail(before).push(text.last()) =~= text.skip(text.len() - tail(text).len()));
    } else {
        assert(tail(text) =~= text.skip(text.len() - tail(text).len()));
    }
}

/// Splitting loses nothing: the complete lines of a text without carriage
/// returns, written one per line again and followed by the tail, are the
/// text.
pub proof fn law_lines_make_up_the_text(text: Seq<char>)
    requires
        forall|i: int| 0 <= i < text.len() ==> text[i] != '\r',
    ensures
        one_per_line(complete_lines(text)) + tail(text) == text,
    decreases text.len(),
{
    if text.len() == 0 {
        assert(one_per_line(complete_lines(text)) + tail(text) =~= text);
    } else {
        let before = text.drop_last();
        law_lines_make_up_the_text(before);
        lemma_tail_is_suffix(before);
        if text.last() == '\n' {
            let line = tail(before);
            assert(strip_cr(line) == line);
            assert(complete_lines(text).drop_last() =~= complete_lines(before));
            assert(one_per_line(complete_lines(before)) + line.push('\n') + Seq::<char>::empty()
                =~= (one_per_line(complete_lines(before)) + line).push('\n'));
            assert(before.push('\n') =~= text);
        } else {
            assert(one_per_line(complete_lines(before)) + tail(before).push(text.last()) =~= (
            one_per_line(complete_lines(before)) + tail(before)).push(text.last()));
            assert(before.push(text.last()) =~= text);
        }
    }
}

/// Every complete line is without a line feed.
pub proof fn law_complete_lines_are_unbroken(text: Seq<char>, i: int)
    requires
        0 <= i < complete_lines(text).len(),
    ensures
        unbroken(complete_lines(text)[i]),
    decreases text.len(),
{
    if text.len() > 0 {
        let before = text.drop_last();
        if text.last() == '\n' && i == complete_lines(before).len() {
            lemma_tail_unbroken(before);
        } else {
            law_complete_lines_are_unbroken(before, i);
        }
    }
}

} // verus!
