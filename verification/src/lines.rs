//! Text as lines: how a run of bytes falls into lines, and how lines are
//! written out again.
use crate::scan::{lemma_position_first, lemma_position_is, position};
use vstd::prelude::*;
use vstd::slice::slice_subrange;

verus! {

/// The line feed, which ends a line.
pub const LF: u8 = 10;

/// The carriage return, which is not part of a line where it stands before
/// the line feed that ends it.
pub const CR: u8 = 13;

/// `line` without the carriage return at its end, if it has one.
pub open spec fn strip_cr(line: Seq<u8>) -> Seq<u8> {
    if line.len() > 0 && line.last() == CR {
        line.drop_last()
    } else {
        line
    }
}

/// Number of bytes that the first line of `text` takes up, the line feed that
/// ends it included.
pub open spec fn line_span(text: Seq<u8>) -> nat {
    let at = position(text, LF);
    if at < text.len() {
        at + 1
    } else {
        text.len()
    }
}

/// The first line of `text`: what stands before the first line feed, without
/// a carriage return just before it; all of `text` where it has no line feed.
pub open spec fn first_line(text: Seq<u8>) -> Seq<u8> {
    let at = position(text, LF);
    if at < text.len() {
        strip_cr(text.take(at as int))
    } else {
        text
    }
}

/// The lines of `text`. A line ends at a line feed, or at the end of the text
/// where no line feed follows; the line feed, and a carriage return just
/// before it, are not part of the line. An empty text has no lines, and a
/// text that ends in a line feed has no empty line after it.
pub open spec fn split_lines(text: Seq<u8>) -> Seq<Seq<u8>>
    decreases text.len(),
{
    if text.len() == 0 {
        Seq::empty()
    } else {
        seq![first_line(text)] + split_lines(text.skip(line_span(text) as int))
    }
}

/// The text that holds `lines`, each followed by a line feed.
pub open spec fn join_lines(lines: Seq<Seq<u8>>) -> Seq<u8>
    decreases lines.len(),
{
    if lines.len() == 0 {
        Seq::empty()
    } else {
        join_lines(lines.drop_last()) + lines.last().push(LF)
    }
}

/// `text` with a bare line feed at the end of each line: a carriage return
/// and a line feed that follows it become a line feed, and a text that does
/// not end in a line feed gets one.
pub open spec fn normalized(text: Seq<u8>) -> Seq<u8>
    decreases text.len(),
{
    if text.len() == 0 {
        text
    } else if text.len() == 1 && text[0] != LF {
        text.push(LF)
    } else if text.len() >= 2 && text[0] == CR && text[1] == LF {
        seq![LF] + normalized(text.skip(2))
    } else {
        seq![text[0]] + normalized(text.skip(1))
    }
}

/// Whether `line` can stand as a line of a text: it holds no line feed.
pub open spec fn is_line(line: Seq<u8>) -> bool {
    !line.contains(LF)
}

/// Whether `text` consists of lines that each end in a bare line feed: it is
/// empty or ends in a line feed, and no line feed has a carriage return before
/// it.
pub open spec fn is_plain(text: Seq<u8>) -> bool {
    &&& text.len() > 0 ==> text.last() == LF
    &&& forall|i: int| 0 <= i < text.len() - 1 && #[trigger] text[i] == CR ==> text[i + 1] != LF
}

/// Writing one more line appends that line and a line feed to the text.
pub proof fn lemma_join_push(lines: Seq<Seq<u8>>, line: Seq<u8>)
    ensures
        join_lines(lines.push(line)) == join_lines(lines) + line.push(LF),
{
    assert(lines.push(line).drop_last() =~= lines);
}

/// The text of some lines starts with the first of them and its line feed.
pub proof fn lemma_join_front(lines: Seq<Seq<u8>>)
    requires
        lines.len() > 0,
    ensures
        join_lines(lines) == lines[0].push(LF) + join_lines(lines.skip(1)),
    decreases lines.len(),
{
    if lines.len() == 1 {
        assert(lines.drop_last() =~= Seq::<Seq<u8>>::empty());
        assert(lines.skip(1) =~= Seq::<Seq<u8>>::empty());
    } else {
        let front = lines.drop_last();
        lemma_join_front(front);
        assert(lines.skip(1).drop_last() =~= front.skip(1));
    }
}

/// The text of two runs of lines is the text of the first and then that of
/// the second.
pub proof fn lemma_join_add(front: Seq<Seq<u8>>, back: Seq<Seq<u8>>)
    ensures
        join_lines(front + back) == join_lines(front) + join_lines(back),
    decreases back.len(),
{
    if back.len() > 0 {
        lemma_join_add(front, back.drop_last());
        assert((front + back).drop_last() =~= front + back.drop_last());
    }
}

/// The text of some lines ends in a line feed, unless there are no lines.
pub proof fn lemma_join_ends_in_lf(lines: Seq<Seq<u8>>)
    requires
        lines.len() > 0,
    ensures
        join_lines(lines).len() > 0,
        join_lines(lines).last() == LF,
{
}

/// No line of a text holds a line feed, and a text has a line unless it is
/// empty.
pub proof fn lemma_split_lines_are_lines(text: Seq<u8>)
    ensures
        forall|i: int| 0 <= i < split_lines(text).len() ==> is_line(#[trigger] split_lines(text)[i]),
        split_lines(text).len() > 0 <==> text.len() > 0,
    decreases text.len(),
{
    if text.len() > 0 {
        lemma_position_first(text, LF);
        lemma_split_lines_are_lines(text.skip(line_span(text) as int));
        assert(is_line(first_line(text)));
    }
}

/// Lines that are written out and read again come back unchanged, provided
/// that none of them holds a line feed or ends in a carriage return.
pub proof fn lemma_split_join(lines: Seq<Seq<u8>>)
    requires
        forall|i: int| 0 <= i < lines.len() ==> is_line(#[trigger] lines[i]),
        forall|i: int| 0 <= i < lines.len() ==> strip_cr(#[trigger] lines[i]) == lines[i],
    ensures
        split_lines(join_lines(lines)) == lines,
    decreases lines.len(),
{
    if lines.len() > 0 {
        let first = lines[0];
        let rest = lines.skip(1);
        let text = join_lines(lines);
        lemma_join_front(lines);
        assert(forall|i: int| 0 <= i < first.len() ==> text[i] != LF);
        lemma_position_is(text, LF, first.len() as int);
        assert(text.take(first.len() as int) =~= first);
        assert(text.skip(line_span(text) as int) =~= join_lines(rest));
        lemma_split_join(rest);
    }
}

/// A text whose lines each end in a bare line feed is the text of its lines.
pub proof fn lemma_join_split(text: Seq<u8>)
    requires
        is_plain(text),
    ensures
        join_lines(split_lines(text)) == text,
    decreases text.len(),
{
    if text.len() > 0 {
        let at = position(text, LF) as int;
        lemma_position_first(text, LF);
        let rest = text.skip(at + 1);
        assert(first_line(text) == text.take(at));
        assert(is_plain(rest));
        lemma_join_split(rest);
        let lines = split_lines(text);
        assert(lines.skip(1) =~= split_lines(rest));
        lemma_join_front(lines);
    }
}

/// The lines of a text, written out, are the text with a bare line feed at
/// the end of each line.
pub proof fn lemma_join_split_normalized(text: Seq<u8>)
    ensures
        join_lines(split_lines(text)) == normalized(text),
    decreases text.len(),
{
    if text.len() > 0 {
        let lines = split_lines(text);
        lemma_join_front(lines);
        lemma_position_first(text, LF);
        if text.len() >= 2 && text[0] == CR && text[1] == LF {
            lemma_position_is(text, LF, 1);
            assert(lines.skip(1) =~= split_lines(text.skip(2)));
            lemma_join_split_normalized(text.skip(2));
        } else if text[0] == LF {
            assert(lines.skip(1) =~= split_lines(text.skip(1)));
            lemma_join_split_normalized(text.skip(1));
        } else {
            let tail = text.skip(1);
            let at = position(tail, LF) as int;
            lemma_position_first(tail, LF);
            lemma_join_split_normalized(tail);
            assert(text.skip(line_span(text) as int) =~= tail.skip(line_span(tail) as int));
            assert(first_line(text) =~= seq![text[0]] + first_line(tail));
            if tail.len() > 0 {
                lemma_join_front(split_lines(tail));
                assert(lines.skip(1) =~= split_lines(tail).skip(1));
            }
        }
    }
}

/// Index of the first `byte` in `input` at or after `from`; the length of
/// `input` where there is none.
fn find_byte(input: &[u8], from: usize, byte: u8) -> (at: usize)
    requires
        from <= input@.len(),
    ensures
        at == from + position(input@.skip(from as int), byte),
        from <= at <= input@.len(),
{
    let mut at: usize = from;
    while at < input.len() && input[at] != byte
        invariant
            from <= at <= input@.len(),
            forall|i: int| from <= i < at ==> input@[i] != byte,
        decreases input@.len() - at,
    {
        at = at + 1;
    }
    proof {
        lemma_position_is(input@.skip(from as int), byte, at - from);
    }
    at
}

/// The line of `input` that starts at `from`, and the index at which the
/// next one starts; `None` where `input` ends at or before `from`.
pub fn next_line<'a>(input: &'a [u8], from: usize) -> (found: Option<(&'a [u8], usize)>)
    ensures
        found is None <==> from >= input@.len(),
        match found {
            Some((line, next)) => {
                &&& line@ == first_line(input@.skip(from as int))
                &&& next == from + line_span(input@.skip(from as int))
                &&& from < next <= input@.len()
                &&& split_lines(input@.skip(from as int)) == seq![line@] + split_lines(
                    input@.skip(next as int),
                )
            },
            None => true,
        },
{
    if from >= input.len() {
        return None;
    }
    let ghost text = input@.skip(from as int);
    let at = find_byte(input, from, LF);
    let (end, next) = if at == input.len() {
        (at, at)
    } else if at > from && input[at - 1] == CR {
        (at - 1, at + 1)
    } else {
        (at, at + 1)
    };
    let line = slice_subrange(input, from, end);
    proof {
        assert(line@ =~= first_line(text));
        assert(text.skip(next - from) =~= input@.skip(next as int));
    }
    Some((line, next))
}

/// Appends `line` and a line feed to `output`.
pub fn write_line(output: &mut Vec<u8>, line: &[u8])
    ensures
        final(output)@ == old(output)@ + line@.push(LF),
{
    output.extend_from_slice(line);
    output.push(LF);
}

} // verus!
