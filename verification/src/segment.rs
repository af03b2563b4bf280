//! Segments: one contiguous occurrence of a condition in the stream.

use vstd::prelude::*;

verus! {

/// The half-open frame interval `[start, end)` during which a condition held.
///
/// `end` is `None` while the condition still holds. `channel` is the channel
/// on which it was seen, or `None` where it is a property of all channels
/// together.
#[derive(Clone, Copy, Debug, PartialEq, Eq, Structural)]
pub struct Segment {
    pub start: usize,
    pub end: Option<usize>,
    pub channel: Option<usize>,
}

impl Segment {
    /// Whether the condition has ended.
    pub open spec fn is_closed(self) -> bool {
        self.end is Some
    }

    /// The end of a closed segment, and `stream_end` for an open one.
    pub open spec fn end_or(self, stream_end: usize) -> usize {
        match self.end {
            Some(e) => e,
            None => stream_end,
        }
    }

    /// A closed segment never ends before it starts.
    pub open spec fn ordered(self) -> bool {
        match self.end {
            Some(e) => self.start <= e,
            None => true,
        }
    }

    /// The end of the segment in a stream that stops at `stream_end`.
    pub fn resolve_end(&self, stream_end: usize) -> (r: usize)
        ensures
            r == self.end_or(stream_end),
    {
        match self.end {
            Some(e) => e,
            None => stream_end,
        }
    }
}

/// Every segment of the list is closed and ends no earlier than it starts.
pub open spec fn all_closed(segments: Seq<Segment>) -> bool {
    forall|i: int|
        0 <= i < segments.len() ==> (#[trigger] segments[i]).is_closed() && segments[i].ordered()
}

} // verus!
