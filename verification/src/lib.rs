//! Selection of a contiguous range of lines from a text stream.
//!
//! A [`Slice`] names a range by two boundaries, each counted either from the
//! start of the stream (non-negative) or from its end (negative). A
//! [`StreamSlicer`] applies a slice to lines that arrive one at a time, holding
//! back no more lines than the magnitude of the boundary that is counted from
//! the end. [`slice_input`] runs the slicer over a text held in memory.
pub mod decimal;
pub mod expr;
pub mod input;
pub mod lines;
pub mod scan;
pub mod slice;
pub mod slicer;

pub use crate::slice::Slice;
pub use crate::slicer::StreamSlicer;
pub use crate::input::slice_input;
