//! Texts as sequences of characters: padding, lines and where they end.

use vstd::prelude::*;

verus! {

/// `String::push` of the standard library, which appends one character to
/// the end of the string: afterwards the string holds what it held, followed
/// by `c`.
pub assume_specification[ String::push ](text: &mut String, c: char)
    ensures
        final(text)@ == old(text)@.push(c),
;

/// `n` spaces.
pub open spec fn blank(n: nat) -> Seq<char> {
    Seq::new(n, |i: int| ' ')
}

/// `text` behind as many spaces as bring it to `width` characters; a text
/// that is longer stays whole.
pub open spec fn right_aligned(text: Seq<char>, width: nat) -> Seq<char> {
    if text.len() >= width {
        text
    } else {
        blank((width - text.len()) as nat) + text
    }
}

/// Whether `text` is free of newlines.
pub open spec fn one_line(text: Seq<char>) -> bool {
    forall|i: int| 0 <= i < text.len() ==> text[i] != '\n'
}

/// The lines one after another, each ended by a newline.
pub open spec fn terminated(lines: Seq<Seq<char>>) -> Seq<char>
    decreases lines.len(),
{
    if lines.len() == 0 {
        Seq::empty()
    } else {
        terminated(lines.drop_last()) + lines.last().push('\n')
    }
}

/// The pieces into which the newlines of `text` cut it. A text without a
/// newline is one piece, and a newline at the very end leaves an empty piece
/// behind it.
pub open spec fn split_lines(text: Seq<char>) -> Seq<Seq<char>>
    decreases text.len(),
{
    if text.len() == 0 {
        seq![Seq::empty()]
    } else {
        let above = split_lines(text.drop_last());
        if text.last() == '\n' {
            above.push(Seq::empty())
        } else {
            above.drop_last().push(above.last().push(text.last()))
        }
    }
}

/// Every text has at least one piece.
pub proof fn lemma_split_lines_nonempty(text: Seq<char>)
    ensures
        split_lines(text).len() >= 1,
    decreases text.len(),
{
    if text.len() > 0 {
        lemma_split_lines_nonempty(text.drop_last());
    }
}

/// A text without newlines, put behind another, lengthens that one's last
/// piece.
pub proof fn lemma_split_lines_extend(text: Seq<char>, more: Seq<char>)
    requires
        one_line(more),
    ensures
        split_lines(text + more) == split_lines(text).drop_last().push(
            split_lines(text).last() + more,
        ),
    decreases more.len(),
{
    lemma_split_lines_nonempty(text);
    let pieces = split_lines(text);
    if more.len() == 0 {
        assert(text + more =~= text);
        assert(pieces.last() + more =~= pieces.last());
        assert(pieces.drop_last().push(pieces.last()) =~= pieces);
    } else {
        let shorter = more.drop_last();
        assert(one_line(shorter));
        lemma_split_lines_extend(text, shorter);
        assert((text + more).drop_last() =~= text + shorter);
        assert((text + more).last() == more.last());
        let above = split_lines(text + shorter);
        assert(above.drop_last() =~= pieces.drop_last());
        assert(above.last().push(more.last()) =~= pieces.last() + more);
    }
}

/// Lines without newlines, each ended by one, are cut apart where they were
/// put together; behind the last newline nothing is left.
pub proof fn lemma_split_lines_terminated(lines: Seq<Seq<char>>)
    requires
        forall|i: int| 0 <= i < lines.len() ==> one_line(#[trigger] lines[i]),
    ensures
        split_lines(terminated(lines)) == lines.push(Seq::empty()),
    decreases lines.len(),
{
    if lines.len() == 0 {
        assert(split_lines(terminated(lines)) =~= lines.push(Seq::empty()));
    } else {
        let above = lines.drop_last();
        lemma_split_lines_terminated(above);
        let body = terminated(above) + lines.last();
        lemma_split_lines_extend(terminated(above), lines.last());
        assert(Seq::<char>::empty() + lines.last() =~= lines.last());
        assert(above.push(Seq::empty()).drop_last() =~= above);
        assert(above.push(lines.last()) =~= lines);
        assert(split_lines(body) == lines);
        assert(terminated(lines) =~= body.push('\n'));
        assert(body.push('\n').drop_last() =~= body);
    }
}

} // verus!
