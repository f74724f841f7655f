//! The slice itself: a pair of boundaries, and the lines that it selects from
//! a stream of known content.
use vstd::prelude::*;

verus! {

/// A selection rule for the lines of a stream.
///
/// A non-negative `begin` is the index of the first selected line; a negative
/// one selects a window of that many lines at the end of the stream. A
/// non-negative `end` is the index that the selection stops before; a negative
/// one leaves out that many lines at the end of the stream; an absent one lets
/// the selection run to the end.
#[derive(Debug, Clone, Copy, PartialEq, Eq)]
pub struct Slice {
    pub begin: isize,
    pub end: Option<isize>,
}

/// The position in a stream of `n` lines that a boundary stands for: itself
/// where it counts from the start, `n` less its magnitude where it counts from
/// the end. The result may lie outside the stream.
pub open spec fn resolve(bound: int, n: nat) -> int {
    if bound >= 0 {
        bound
    } else {
        n + bound
    }
}

/// The position nearest to `pos` that lies within a stream of `n` lines.
pub open spec fn clip(pos: int, n: nat) -> nat {
    if pos < 0 {
        0
    } else if pos > n {
        n
    } else {
        pos as nat
    }
}

/// Magnitude of a boundary: the number of lines that it counts, from
/// whichever end of the stream.
pub fn magnitude(bound: isize) -> (distance: usize)
    ensures
        distance == if bound < 0 {
            -bound
        } else {
            bound as int
        },
{
    if bound < 0 {
        let above: isize = bound + 1;
        let below: usize = (-above) as usize;
        below + 1
    } else {
        bound as usize
    }
}

impl Slice {
    /// Index of the first selected line in a stream of `n` lines.
    pub open spec fn start_index(self, n: nat) -> nat {
        clip(resolve(self.begin as int, n), n)
    }

    /// Index just past the last selected line in a stream of `n` lines.
    pub open spec fn end_index(self, n: nat) -> nat {
        match self.end {
            Some(e) => clip(resolve(e as int, n), n),
            None => n,
        }
    }

    /// The lines that the slice selects from the stream `lines`: those from
    /// the start index up to the end index, none where the two cross.
    pub open spec fn select<T>(self, lines: Seq<T>) -> Seq<T> {
        let from = self.start_index(lines.len());
        let to = self.end_index(lines.len());
        if from < to {
            lines.subrange(from as int, to as int)
        } else {
            Seq::empty()
        }
    }

    /// Whether the selection is anchored at the end of the stream, so that
    /// nothing of it is known before the stream has ended.
    pub open spec fn is_trailing(self) -> bool {
        self.begin < 0
    }

    /// Number of lines at the start of the stream that are passed over.
    pub open spec fn skip_count(self) -> nat {
        if self.begin > 0 {
            self.begin as nat
        } else {
            0
        }
    }

    /// Capacity of the window of lines that are held back while reading: the
    /// magnitude of a negative `begin`, else that of a negative `end`.
    pub open spec fn window_size(self) -> nat {
        if self.begin < 0 {
            (-self.begin) as nat
        } else {
            match self.end {
                Some(e) => if e < 0 {
                    (-e) as nat
                } else {
                    0
                },
                None => 0,
            }
        }
    }

    /// Number of lines after the skipped ones that lie before a non-negative
    /// `end`; `None` where the end of the selection depends on the end of the
    /// stream.
    pub open spec fn stop_count(self) -> Option<nat> {
        match self.end {
            Some(e) => if e < 0 {
                None
            } else if e >= self.skip_count() {
                Some((e - self.skip_count()) as nat)
            } else {
                Some(0)
            },
            None => None,
        }
    }

    /// Number of lines after the skipped ones that are read at most: those
    /// before the stop, and as many again as the window holds.
    pub open spec fn take_count(self) -> Option<nat> {
        match self.stop_count() {
            Some(stop) => Some(stop + self.window_size()),
            None => None,
        }
    }

    /// Number of lines of the stream that are read at most, the skipped ones
    /// included; `None` where the stream is read to its end. Where no line is
    /// to be taken, none is skipped either.
    pub open spec fn read_limit(self) -> Option<nat> {
        match self.take_count() {
            Some(take) => if take == 0 {
                Some(0)
            } else {
                Some(self.skip_count() + take)
            },
            None => None,
        }
    }

    /// Number of lines that are read of a stream of `n` lines.
    pub open spec fn consumed(self, n: nat) -> nat {
        match self.read_limit() {
            Some(limit) => if n <= limit {
                n
            } else {
                limit
            },
            None => n,
        }
    }

    /// Number of lines that are read past the skipped ones of a stream of `n`
    /// lines.
    pub open spec fn taken(self, n: nat) -> nat {
        if self.consumed(n) >= self.skip_count() {
            (self.consumed(n) - self.skip_count()) as nat
        } else {
            0
        }
    }

    /// Number of lines in the window once `n` lines have come in.
    pub open spec fn held(self, n: nat) -> nat {
        if self.taken(n) <= self.window_size() {
            self.taken(n)
        } else {
            self.window_size()
        }
    }

    /// The lines in the window once `lines` have come in: the most recent of
    /// those that were read past the skipped ones, as many as the window
    /// holds.
    pub open spec fn window<T>(self, lines: Seq<T>) -> Seq<T> {
        let read = self.consumed(lines.len());
        lines.subrange(read - self.held(lines.len()), read as int)
    }

    /// The selected lines that are known, and handed out, while the stream is
    /// still being read, once `lines` have come in.
    pub open spec fn emitted<T>(self, lines: Seq<T>) -> Seq<T> {
        if self.is_trailing() {
            Seq::empty()
        } else {
            self.select(lines)
        }
    }

    /// The selected lines that are handed out only when the stream has ended
    /// after `lines`.
    pub open spec fn pending<T>(self, lines: Seq<T>) -> Seq<T> {
        if self.is_trailing() {
            self.select(lines)
        } else {
            Seq::empty()
        }
    }

    /// With a non-negative `begin` and an `end` at or after it, the selection
    /// is the run of lines at the indices from `begin` up to, not including,
    /// `end`, as far as the stream reaches.
    pub proof fn lemma_select_between<T>(self, lines: Seq<T>)
        requires
            0 <= self.begin,
            self.end is Some,
            self.begin <= self.end->0,
        ensures
            self.select(lines) == lines.subrange(
                clip(self.begin as int, lines.len()) as int,
                clip(self.end->0 as int, lines.len()) as int,
            ),
    {
    }

    /// With a non-negative `begin` and no `end`, the selection is every line
    /// from the index `begin` on.
    pub proof fn lemma_select_from<T>(self, lines: Seq<T>)
        requires
            0 <= self.begin,
            self.end is None,
        ensures
            self.select(lines) == lines.skip(clip(self.begin as int, lines.len()) as int),
    {
    }

    /// With a negative `begin` and no `end`, the selection is the last
    /// `-begin` lines of the stream, or all of it where it has fewer.
    pub proof fn lemma_select_last<T>(self, lines: Seq<T>)
        requires
            self.begin < 0,
            self.end is None,
        ensures
            self.select(lines).len() == clip(-self.begin, lines.len()),
            self.select(lines) == lines.skip(lines.len() - clip(-self.begin, lines.len())),
    {
    }

    /// Where the window between the two indices is empty, or the end boundary
    /// stands at or before the start boundary, both taken as positions in the
    /// stream at hand, nothing is selected.
    pub proof fn lemma_select_crossed<T>(self, lines: Seq<T>)
        requires
            self.end_index(lines.len()) <= self.start_index(lines.len()) || match self.end {
                Some(e) => resolve(e as int, lines.len()) <= resolve(self.begin as int, lines.len()),
                None => lines.len() <= resolve(self.begin as int, lines.len()),
            },
        ensures
            self.select(lines) == Seq::<T>::empty(),
    {
    }

    /// The slice from `0` with no `end` selects the whole stream.
    pub proof fn lemma_select_everything<T>(lines: Seq<T>)
        ensures
            (Slice { begin: 0, end: None }).select(lines) == lines,
    {
    }

    /// The selection is a run of consecutive lines of the stream, in their
    /// order.
    pub proof fn lemma_select_is_contiguous<T>(self, lines: Seq<T>)
        ensures
            self.start_index(lines.len()) + self.select(lines).len() <= lines.len(),
            forall|i: int|
                0 <= i < self.select(lines).len() ==> #[trigger] self.select(lines)[i]
                    == lines[self.start_index(lines.len()) + i],
    {
    }

    /// Lines beyond the read limit have no part in the selection: a stream
    /// selects what its consumed prefix selects.
    pub proof fn lemma_select_of_consumed<T>(self, lines: Seq<T>)
        ensures
            self.select(lines) == self.select(lines.take(self.consumed(lines.len()) as int)),
    {
    }

    /// Once as many lines as the read limit have come in, whatever follows
    /// them does not change the selection.
    pub proof fn lemma_select_beyond_limit<T>(self, head: Seq<T>, tail: Seq<T>)
        requires
            self.read_limit() is Some,
            head.len() >= self.read_limit()->0,
        ensures
            self.select(head + tail) == self.select(head),
    {
        self.lemma_select_of_consumed(head);
        self.lemma_select_of_consumed(head + tail);
    }

    /// Selecting commutes with a change of the lines one by one.
    pub proof fn lemma_select_map<T, U>(self, lines: Seq<T>, f: spec_fn(T) -> U)
        ensures
            self.select(lines.map_values(f)) == self.select(lines).map_values(f),
    {
    }
}

} // verus!
