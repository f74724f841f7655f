//! The streaming slicer: it takes the lines of a stream one at a time and
//! hands out the selected ones, holding back no more than the window.
use crate::slice::{magnitude, Slice};
use std::collections::VecDeque;
use vstd::prelude::*;

verus! {

/// A slice at work on one stream.
///
/// The slicer is fed the lines of the stream in order. It keeps count of the
/// lines still to be passed over and of those still to be taken, and a window
/// of the most recent lines. With a slice that is not trailing, a line leaves
/// the window for the output as soon as enough lines have followed it; with a
/// trailing slice, lines that leave the window are dropped and the output is
/// cut from the window when the stream has ended.
pub struct StreamSlicer<T> {
    slice: Slice,
    trailing: bool,
    skip_left: usize,
    take_left: Option<usize>,
    capacity: usize,
    window: VecDeque<T>,
    seen: Ghost<Seq<T>>,
}

impl<T> StreamSlicer<T> {
    /// The slice that is being applied.
    pub closed spec fn slice(&self) -> Slice {
        self.slice
    }

    /// The lines that have been fed so far, in order.
    pub closed spec fn seen(&self) -> Seq<T> {
        self.seen@
    }

    /// The lines that are held in the window.
    pub closed spec fn window(&self) -> Seq<T> {
        self.window@
    }

    /// The counters and the window agree with the lines that have been fed.
    pub closed spec fn wf(&self) -> bool {
        let n = self.seen@.len();
        &&& self.trailing == self.slice.is_trailing()
        &&& self.capacity == self.slice.window_size()
        &&& self.skip_left == self.slice.skip_count() - (self.slice.consumed(n) - self.slice.taken(
            n,
        ))
        &&& match self.slice.take_count() {
            Some(take) => self.take_left == Some((take - self.slice.taken(n)) as usize)
                && self.slice.taken(n) <= take,
            None => self.take_left is None,
        }
        &&& self.window@ == self.slice.window(self.seen@)
    }

    /// The window holds the most recent lines that were read past the skipped
    /// ones: never more than its capacity, whatever the length of the stream.
    pub proof fn lemma_window(&self)
        requires
            self.wf(),
        ensures
            self.window() == self.slice().window(self.seen()),
            self.window().len() <= self.slice().window_size(),
            self.window().len() <= self.seen().len(),
    {
    }

    /// The selected lines that have been handed out so far.
    pub open spec fn emitted(&self) -> Seq<T> {
        self.slice().emitted(self.seen())
    }

    /// The selected lines that will be handed out if the stream ends here.
    pub open spec fn pending(&self) -> Seq<T> {
        self.slice().pending(self.seen())
    }

    /// Whether every line that the slice reads has been fed.
    pub open spec fn is_saturated(&self) -> bool {
        match self.slice().read_limit() {
            Some(limit) => self.seen().len() >= limit,
            None => false,
        }
    }

    /// A slicer for `slice` at the start of a stream.
    pub fn new(slice: Slice) -> (slicer: Self)
        ensures
            slicer.wf(),
            slicer.slice() == slice,
            slicer.seen() == Seq::<T>::empty(),
            slicer.window() == Seq::<T>::empty(),
    {
        let skip: usize = if slice.begin > 0 {
            slice.begin as usize
        } else {
            0
        };
        let mut capacity: usize = 0;
        let mut take_left: Option<usize> = None;
        if let Some(end) = slice.end {
            if end >= 0 {
                let stop: usize = if end as usize > skip {
                    end as usize - skip
                } else {
                    0
                };
                take_left = Some(stop);
            } else {
                capacity = magnitude(end);
            }
        }
        let trailing = slice.begin < 0;
        if trailing {
            capacity = magnitude(slice.begin);
            if let Some(stop) = take_left {
                take_left = Some(stop + capacity);
            }
        }
        let slicer = StreamSlicer {
            slice,
            trailing,
            skip_left: skip,
            take_left,
            capacity,
            window: VecDeque::new(),
            seen: Ghost(Seq::empty()),
        };
        assert(slicer.window@ =~= slicer.seen@.subrange(0, 0));
        slicer
    }

    /// Whether the slicer still reads: `false` once no further line can
    /// change what is selected.
    pub fn wants_line(&self) -> (wanted: bool)
        requires
            self.wf(),
        ensures
            wanted == !self.is_saturated(),
    {
        match self.take_left {
            Some(left) => left > 0,
            None => true,
        }
    }

    /// Feeds the next line of the stream, and returns the line that is
    /// thereby known to be selected, if there is one.
    ///
    /// Of a slice that is not trailing, the lines returned so far are at each
    /// moment the selection from the lines fed so far. A trailing slice
    /// returns nothing here. A line that is fed to a saturated slicer is
    /// dropped: it cannot change the selection.
    pub fn push(&mut self, line: T) -> (out: Option<T>)
        requires
            old(self).wf(),
        ensures
            final(self).wf(),
            final(self).slice() == old(self).slice(),
            final(self).seen() == old(self).seen().push(line),
            final(self).emitted() == match out {
                Some(selected) => old(self).emitted().push(selected),
                None => old(self).emitted(),
            },
            final(self).window().len() <= final(self).slice().window_size(),
    {
        let ghost before = self.seen@;
        self.seen = Ghost(before.push(line));
        let saturated = match self.take_left {
            Some(left) => left == 0,
            None => false,
        };
        if saturated {
            proof {
                lemma_push_dropped(self.slice, before, line);
            }
            return None;
        }
        if self.skip_left > 0 {
            proof {
                lemma_push_skipped(self.slice, before, line);
            }
            self.skip_left = self.skip_left - 1;
            return None;
        }
        proof {
            lemma_push_taken(self.slice, before, line);
        }
        if let Some(left) = self.take_left {
            self.take_left = Some(left - 1);
        }
        if self.capacity == 0 {
            return Some(line);
        }
        let evicted = if self.window.len() == self.capacity {
            self.window.pop_front()
        } else {
            None
        };
        self.window.push_back(line);
        // As many lines as the window holds have followed the evicted one: it
        // lies before a negative end, and before the window of a trailing slice.
        if self.trailing {
            None
        } else {
            evicted
        }
    }

    /// Ends the stream, and returns the selected lines that could not be
    /// known before, in order: all that a trailing slice selects, and nothing
    /// of another.
    pub fn finish(self) -> (rest: VecDeque<T>)
        requires
            self.wf(),
        ensures
            rest@ == self.pending(),
            self.emitted() + rest@ == self.slice().select(self.seen()),
    {
        let mut window = self.window;
        let held: usize = window.len();
        if !self.trailing {
            // What is still held are the lines that a negative end leaves out.
            window.truncate(0);
            return window;
        }
        // Cut from the end of the window: the lines that a negative end leaves
        // out, or those that were read past a non-negative end.
        let cut: usize = match self.slice.end {
            None => 0,
            Some(end) => if end < 0 {
                magnitude(end)
            } else {
                match self.take_left {
                    Some(left) => if left >= self.capacity {
                        0
                    } else {
                        self.capacity - left
                    },
                    None => 0,
                }
            },
        };
        let keep: usize = if cut >= held {
            0
        } else {
            held - cut
        };
        window.truncate(keep);
        proof {
            self.slice.lemma_select_of_consumed(self.seen@);
        }
        window
    }

    /// Number of lines held in the window.
    pub fn held(&self) -> (count: usize)
        requires
            self.wf(),
        ensures
            count == self.window().len(),
            count <= self.slice().window_size(),
            count <= self.seen().len(),
    {
        self.window.len()
    }
}

/// A line that comes in after the read limit changes nothing.
proof fn lemma_push_dropped<T>(slice: Slice, before: Seq<T>, line: T)
    requires
        slice.read_limit() is Some,
        before.len() >= slice.read_limit()->0,
    ensures
        slice.consumed(before.len() + 1) == slice.consumed(before.len()),
        slice.window(before.push(line)) == slice.window(before),
        slice.select(before.push(line)) == slice.select(before),
{
    slice.lemma_select_of_consumed(before);
    slice.lemma_select_of_consumed(before.push(line));
}

/// A line that is passed over leaves the window and the selection empty.
proof fn lemma_push_skipped<T>(slice: Slice, before: Seq<T>, line: T)
    requires
        slice.read_limit() is Some ==> before.len() < slice.read_limit()->0,
        slice.consumed(before.len()) < slice.skip_count(),
    ensures
        slice.consumed(before.len() + 1) == before.len() + 1,
        slice.taken(before.len() + 1) == 0,
        slice.window(before.push(line)) == slice.window(before),
        slice.select(before.push(line)) == slice.select(before),
{
}

/// A line that is taken enters the window, or is selected at once where there
/// is no window. From a full window the oldest line leaves, and is selected
/// unless the slice is trailing.
proof fn lemma_push_taken<T>(slice: Slice, before: Seq<T>, line: T)
    requires
        slice.read_limit() is Some ==> before.len() < slice.read_limit()->0,
        slice.consumed(before.len()) >= slice.skip_count(),
    ensures
        slice.consumed(before.len() + 1) == before.len() + 1,
        slice.taken(before.len() + 1) == slice.taken(before.len()) + 1,
        slice.window_size() == 0 ==> {
            &&& slice.window(before.push(line)) == slice.window(before)
            &&& slice.select(before.push(line)) == slice.select(before).push(line)
        },
        slice.window_size() > 0 && slice.held(before.len()) < slice.window_size() ==> {
            &&& slice.window(before.push(line)) == slice.window(before).push(line)
            &&& slice.emitted(before.push(line)) == slice.emitted(before)
        },
        slice.window_size() > 0 && slice.held(before.len()) == slice.window_size() ==> {
            &&& slice.window(before.push(line)) == slice.window(before).subrange(
                1,
                slice.window_size() as int,
            ).push(line)
            &&& !slice.is_trailing() ==> slice.select(before.push(line)) == slice.select(
                before,
            ).push(slice.window(before)[0])
        },
{
}

} // verus!
