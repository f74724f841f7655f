//! The slicing of a text that is held in memory.
use crate::lines::{
    is_line, is_plain, join_lines, lemma_join_add, lemma_join_ends_in_lf, lemma_join_push,
    lemma_join_split, lemma_join_split_normalized, lemma_split_join, lemma_split_lines_are_lines,
    next_line, normalized, split_lines, strip_cr, write_line, LF,
};
use crate::slice::Slice;
use crate::slicer::StreamSlicer;
use std::collections::VecDeque;
use vstd::prelude::*;

verus! {

/// The contents of borrowed lines.
pub open spec fn contents(lines: Seq<&[u8]>) -> Seq<Seq<u8>> {
    lines.map_values(|line: &[u8]| line@)
}

/// Appends each of `lines`, and a line feed after it, to `output`.
fn write_lines(output: &mut Vec<u8>, lines: &VecDeque<&[u8]>)
    ensures
        final(output)@ == old(output)@ + join_lines(contents(lines@)),
{
    let mut i: usize = 0;
    while i < lines.len()
        invariant
            i <= lines@.len(),
            output@ == old(output)@ + join_lines(contents(lines@.take(i as int))),
        decreases lines@.len() - i,
    {
        let line = lines[i];
        write_line(output, line);
        proof {
            let done = contents(lines@.take(i as int));
            assert(contents(lines@.take(i + 1)) =~= done.push(line@));
            lemma_join_push(done, line@);
        }
        i = i + 1;
    }
    assert(lines@.take(lines@.len() as int) =~= lines@);
}

/// Feeds `slicer` the lines of `input`, until the text ends or the slicer is
/// saturated, and writes each line that it hands out to `output`.
fn read_lines<'a>(slicer: &mut StreamSlicer<&'a [u8]>, input: &'a [u8], output: &mut Vec<u8>)
    requires
        old(slicer).wf(),
        old(slicer).seen().len() == 0,
    ensures
        final(slicer).wf(),
        final(slicer).slice() == old(slicer).slice(),
        final(output)@ == old(output)@ + join_lines(contents(final(slicer).emitted())),
        old(slicer).slice().select(contents(final(slicer).seen())) == old(slicer).slice().select(
            split_lines(input@),
        ),
{
    let ghost slice = slicer.slice();
    let mut from: usize = 0;
    proof {
        assert(input@.skip(0) =~= input@);
    }
    while slicer.wants_line()
        invariant
            slicer.wf(),
            slicer.slice() == slice,
            from <= input@.len(),
            split_lines(input@) == contents(slicer.seen()) + split_lines(
                input@.skip(from as int),
            ),
            output@ == old(output)@ + join_lines(contents(slicer.emitted())),
        ensures
            from >= input@.len() || slicer.is_saturated(),
        decreases input@.len() - from,
    {
        let ghost emitted = slicer.emitted();
        let (line, next) = match next_line(input, from) {
            Some(found) => found,
            None => {
                break;
            },
        };
        let selected = slicer.push(line);
        if let Some(out) = selected {
            write_line(output, out);
            proof {
                assert(contents(emitted.push(out)) =~= contents(emitted).push(out@));
                lemma_join_push(contents(emitted), out@);
            }
        }
        from = next;
    }
    proof {
        if from < input.len() {
            slice.lemma_select_beyond_limit(
                contents(slicer.seen()),
                split_lines(input@.skip(from as int)),
            );
        }
    }
}

/// Writes to `output` the lines that `slice` selects from the text `input`,
/// each followed by a line feed.
///
/// The text is read line by line and no further than the slice needs; apart
/// from `output`, no more lines are held at a time than the window of the
/// slice has room for.
pub fn slice_input(slice: Slice, input: &[u8], output: &mut Vec<u8>)
    ensures
        final(output)@ == old(output)@ + join_lines(slice.select(split_lines(input@))),
{
    let mut slicer: StreamSlicer<&[u8]> = StreamSlicer::new(slice);
    read_lines(&mut slicer, input, output);
    let ghost seen = slicer.seen();
    let ghost emitted = slicer.emitted();
    let rest = slicer.finish();
    write_lines(output, &rest);
    proof {
        slice.lemma_select_map(seen, |line: &[u8]| line@);
        lemma_join_add(contents(emitted), contents(rest@));
    }
}

/// Slicing a text from `0` with no end writes out every line of it, each
/// ended by a bare line feed, the last one too. A text whose lines end in a
/// bare line feed already is written out as it stands.
pub proof fn lemma_slice_everything(text: Seq<u8>)
    ensures
        join_lines((Slice { begin: 0, end: None }).select(split_lines(text))) == normalized(text),
        text.len() > 0 ==> normalized(text).len() > 0 && normalized(text).last() == LF,
        is_plain(text) ==> normalized(text) == text,
{
    Slice::lemma_select_everything(split_lines(text));
    lemma_join_split_normalized(text);
    lemma_split_lines_are_lines(text);
    if text.len() > 0 {
        lemma_join_ends_in_lf(split_lines(text));
    }
    if is_plain(text) {
        lemma_join_split(text);
    }
}

/// What a slice writes out for a text is written out again unchanged when it
/// is itself sliced from `0` with no end, provided that no selected line ends
/// in a carriage return.
pub proof fn lemma_slice_again(slice: Slice, text: Seq<u8>)
    requires
        forall|i: int|
            0 <= i < slice.select(split_lines(text)).len() ==> strip_cr(
                #[trigger] slice.select(split_lines(text))[i],
            ) == slice.select(split_lines(text))[i],
    ensures
        join_lines(
            (Slice { begin: 0, end: None }).select(
                split_lines(join_lines(slice.select(split_lines(text)))),
            ),
        ) == join_lines(slice.select(split_lines(text))),
{
    let lines = split_lines(text);
    let selected = slice.select(lines);
    lemma_split_lines_are_lines(text);
    slice.lemma_select_is_contiguous(lines);
    assert(forall|i: int| 0 <= i < selected.len() ==> is_line(#[trigger] selected[i]));
    lemma_split_join(selected);
    Slice::lemma_select_everything(selected);
}

} // verus!
