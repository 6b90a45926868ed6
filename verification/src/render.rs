//! The text of a backtrace: a header, one line for each frame, and a note on
//! how to read the addresses.

use vstd::prelude::*;
use vstd::string::StringExecFns;
use crate::numeral::{
    decimal, hexadecimal, is_digit, lemma_numeral_digits, lemma_numeral_unambiguous,
    push_numeral,
};
use crate::text::{
    blank, lemma_split_lines_extend, lemma_split_lines_terminated, one_line, right_aligned,
    split_lines, terminated,
};

verus! {

/// The first line of every backtrace.
pub open spec fn header() -> Seq<char> {
    "stack backtrace:"@
}

/// The last line of every backtrace.
pub open spec fn note() -> Seq<char> {
    "note: Use a symbolizer to convert stack frames to human-readable function names."@
}

/// The line of the frame at `index` with the recorded address `address`: the
/// index in decimal, right-aligned in three columns, then the address in
/// hexadecimal.
pub open spec fn frame_line(index: nat, address: usize) -> Seq<char> {
    right_aligned(decimal(index), 3) + ": 0x"@ + hexadecimal(address as nat)
}

/// The line of each frame, in the frames' order.
pub open spec fn frame_lines(frames: Seq<usize>) -> Seq<Seq<char>> {
    Seq::new(frames.len(), |i: int| frame_line(i as nat, frames[i]))
}

/// The text of a backtrace with the recorded addresses `frames`: the header
/// and the frames' lines, each ended by a newline, and the note, which is
/// not.
pub open spec fn rendered(frames: Seq<usize>) -> Seq<char> {
    terminated(seq![header()] + frame_lines(frames)) + note()
}

/// The lines of a backtrace with the recorded addresses `frames`: the
/// header, the frames' lines, the note.
pub open spec fn lines(frames: Seq<usize>) -> Seq<Seq<char>> {
    (seq![header()] + frame_lines(frames)).push(note())
}

/// The text of a backtrace with the recorded addresses `frames`.
pub(crate) fn render(frames: &Vec<usize>) -> (text: String)
    ensures
        text@ == rendered(frames@),
{
    let mut text = String::new();
    text.append("stack backtrace:");
    text.push('\n');
    assert(text@ =~= terminated(seq![header()])) by {
        assert(seq![header()].drop_last() =~= Seq::<Seq<char>>::empty());
        assert(terminated(Seq::<Seq<char>>::empty()) =~= Seq::<char>::empty());
    }
    let mut index: usize = 0;
    while index < frames.len()
        invariant
            index <= frames@.len(),
            text@ == terminated(seq![header()] + frame_lines(frames@).take(index as int)),
        decreases frames@.len() - index,
    {
        let ghost before = text@;
        let ghost above = seq![header()] + frame_lines(frames@).take(index as int);
        push_numeral(&mut text, index, 10, 3);
        text.append(": 0x");
        push_numeral(&mut text, frames[index], 16, 0);
        text.push('\n');
        proof {
            let line = frame_line(index as nat, frames@[index as int]);
            let below = seq![header()] + frame_lines(frames@).take(index + 1);
            assert(right_aligned(hexadecimal(frames@[index as int] as nat), 0) == hexadecimal(
                frames@[index as int] as nat,
            ));
            assert(text@ =~= before + line.push('\n'));
            assert(below.drop_last() =~= above);
            assert(below.last() == line);
        }
        index = index + 1;
    }
    assert(frame_lines(frames@).take(index as int) =~= frame_lines(frames@));
    text.append("note: Use a symbolizer to convert stack frames to human-readable function names.");
    text
}

/// The line of a frame holds no newline.
pub proof fn lemma_frame_line_one_line(index: nat, address: usize)
    ensures
        one_line(frame_line(index, address)),
{
    reveal_strlit(": 0x");
    lemma_numeral_digits(index, 10);
    lemma_numeral_digits(address as nat, 16);
}

/// The line of a frame is neither the header nor the note.
pub proof fn lemma_frame_line_is_its_own(index: nat, address: usize)
    ensures
        frame_line(index, address) != header(),
        frame_line(index, address) != note(),
{
    reveal_strlit("stack backtrace:");
    reveal_strlit(
        "note: Use a symbolizer to convert stack frames to human-readable function names.",
    );
    lemma_numeral_digits(index, 10);
    let line = frame_line(index, address);
    assert(line[0] == ' ' || is_digit(line[0]));
    assert(header()[0] == 's');
    assert(note()[0] == 'n');
}

/// The line of a frame begins with the frame's index in decimal, behind
/// the spaces that bring it to three columns, and a colon follows it.
pub proof fn lemma_frame_line_begins_with_index(index: nat, address: usize)
    ensures
        ({
            let digits = decimal(index);
            let margin = if digits.len() >= 3 {
                0
            } else {
                3 - digits.len()
            };
            &&& frame_line(index, address).subrange(0, margin) == blank(margin as nat)
            &&& frame_line(index, address).subrange(margin, margin + digits.len()) == digits
            &&& frame_line(index, address)[margin + digits.len()] == ':'
        }),
{
    reveal_strlit(": 0x");
    let digits = decimal(index);
    let margin = if digits.len() >= 3 {
        0
    } else {
        3 - digits.len()
    };
    let line = frame_line(index, address);
    assert(line.subrange(0, margin) =~= blank(margin as nat));
    assert(line.subrange(margin, margin + digits.len()) =~= digits);
}

/// The line of a frame tells the frame: two lines that read the same have
/// the same index and the same address.
pub proof fn lemma_frame_line_unambiguous(i: nat, a: usize, j: nat, b: usize)
    requires
        frame_line(i, a) == frame_line(j, b),
    ensures
        i == j,
        a == b,
{
    reveal_strlit(": 0x");
    lemma_numeral_digits(i, 10);
    lemma_numeral_digits(j, 10);
    lemma_numeral_digits(a as nat, 16);
    lemma_numeral_digits(b as nat, 16);
    let line = frame_line(i, a);
    let (di, dj) = (decimal(i), decimal(j));
    let (hi, hj) = (hexadecimal(a as nat), hexadecimal(b as nat));
    let mi: int = if di.len() >= 3 {
        0
    } else {
        3 - di.len()
    };
    let mj: int = if dj.len() >= 3 {
        0
    } else {
        3 - dj.len()
    };
    assert(line =~= blank(mi as nat) + di + ": 0x"@ + hi);
    assert(line =~= blank(mj as nat) + dj + ": 0x"@ + hj);
    if mi < mj {
        assert(line[mi] == di[0]);
        assert(line[mi] == ' ');
    }
    if mj < mi {
        assert(line[mj] == dj[0]);
        assert(line[mj] == ' ');
    }
    if di.len() < dj.len() {
        assert(line[mi + di.len()] == ':');
        assert(line[mi + di.len()] == dj[di.len() as int]);
    }
    if dj.len() < di.len() {
        assert(line[mj + dj.len()] == ':');
        assert(line[mj + dj.len()] == di[dj.len() as int]);
    }
    assert(di =~= line.subrange(mi, mi + di.len()));
    assert(dj =~= line.subrange(mi, mi + di.len()));
    assert(hi =~= line.subrange(mi + di.len() + 4, line.len() as int));
    assert(hj =~= line.subrange(mi + di.len() + 4, line.len() as int));
    lemma_numeral_unambiguous(i, j, 10);
    lemma_numeral_unambiguous(a as nat, b as nat, 16);
}

/// Cut at its newlines, the text of a backtrace with `n` frames falls into
/// exactly `n + 2` lines: first the header, then the line of each frame in
/// the frames' order, last the note. No other line is the header, and no
/// other is the note.
pub proof fn lemma_rendered_lines(frames: Seq<usize>)
    ensures
        split_lines(rendered(frames)) == lines(frames),
        lines(frames).len() == frames.len() + 2,
        lines(frames)[0] == header(),
        forall|i: int|
            0 <= i < frames.len() ==> #[trigger] lines(frames)[i + 1] == frame_line(
                i as nat,
                frames[i],
            ),
        lines(frames).last() == note(),
        forall|i: int|
            0 <= i < lines(frames).len() ==> ((#[trigger] lines(frames)[i]) == header() <==> i
                == 0),
        forall|i: int|
            0 <= i < lines(frames).len() ==> ((#[trigger] lines(frames)[i]) == note() <==> i
                == frames.len() + 1),
{
    assert forall|i: int| 0 <= i < lines(frames).len() implies (((#[trigger] lines(frames)[i])
        == header() <==> i == 0) && (lines(frames)[i] == note() <==> i == frames.len() + 1)) by {
        reveal_strlit("stack backtrace:");
        reveal_strlit(
            "note: Use a symbolizer to convert stack frames to human-readable function names.",
        );
        assert(header()[0] == 's');
        assert(note()[0] == 'n');
        if 0 < i <= frames.len() {
            lemma_frame_line_is_its_own((i - 1) as nat, frames[i - 1]);
        }
    }
    reveal_strlit("stack backtrace:");
    reveal_strlit(
        "note: Use a symbolizer to convert stack frames to human-readable function names.",
    );
    let above = seq![header()] + frame_lines(frames);
    assert forall|i: int| 0 <= i < above.len() implies one_line(#[trigger] above[i]) by {
        if i > 0 {
            lemma_frame_line_one_line((i - 1) as nat, frames[i - 1]);
        }
    }
    lemma_split_lines_terminated(above);
    lemma_split_lines_extend(terminated(above), note());
    assert(above.push(Seq::empty()).drop_last() =~= above);
    assert(Seq::<char>::empty() + note() =~= note());
}

} // verus!
