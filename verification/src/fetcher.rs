use vstd::prelude::*;

use crate::decimal::{decimal_repr, u64_to_decimal};
use crate::errors::DownloadError;
use crate::events::TaskEvent;
use crate::planner::Segment;

verus! {

/// The ASCII value of the `Range` request header for a segment covering
/// `[start, start + length)`: `bytes=<start>-<last>`, where `last` is the
/// inclusive offset of the final byte.
pub open spec fn range_header(start: int, length: int) -> Seq<u8> {
    seq![98u8, 121u8, 116u8, 101u8, 115u8, 61u8] + decimal_repr(start) + seq![45u8]
        + decimal_repr(start + length - 1)
}

/// Build the `Range` header value (`bytes=<start>-<last>`, end inclusive)
/// for one segment's GET request.
pub fn range_header_value(start_offset: u64, length: u64) -> (header: Vec<u8>)
    requires
        length >= 1,
        start_offset + length - 1 <= u64::MAX,
    ensures
        header@ == range_header(start_offset as int, length as int),
{
    let mut header: Vec<u8> = Vec::new();
    header.push(98);
    header.push(121);
    header.push(116);
    header.push(101);
    header.push(115);
    header.push(61);
    let mut start_digits = u64_to_decimal(start_offset);
    header.append(&mut start_digits);
    header.push(45);
    let last_byte: u64 = start_offset + (length - 1);
    let mut end_digits = u64_to_decimal(last_byte);
    header.append(&mut end_digits);
    proof {
        assert(header@ =~= range_header(start_offset as int, length as int));
    }
    header
}

/// The verified core of one segment's fetcher: its identity and the
/// absolute offset in the resource that the next body block belongs at.
/// The surrounding worker performs the GET and the blocking reads, and
/// feeds every block through `on_bytes`.
pub struct SegmentFetcher {
    pub segment_index: usize,
    pub position: u64,
}

impl SegmentFetcher {
    /// Start fetching a planned segment: the cursor begins at the
    /// segment's start offset.
    pub fn new(segment: &Segment) -> (fetcher: Self)
        ensures
            fetcher.segment_index == segment.index,
            fetcher.position == segment.start_offset,
    {
        SegmentFetcher { segment_index: segment.index, position: segment.start_offset }
    }

    /// Account one non-empty block read from the response body: emit a
    /// chunk event carrying the block at the cursor's current absolute
    /// offset, and advance the cursor past it.
    pub fn on_bytes(&mut self, data: Vec<u8>) -> (event: TaskEvent)
        requires
            data@.len() >= 1,
            old(self).position + data@.len() <= u64::MAX,
        ensures
            final(self).segment_index == old(self).segment_index,
            final(self).position == old(self).position + data@.len(),
            event matches TaskEvent::Chunk { segment_index: s, offset: o, bytes: b } && s == old(
                self,
            ).segment_index && o == old(self).position && b@ == data@,
    {
        let offset: u64 = self.position;
        self.position = self.position + data.len() as u64;
        TaskEvent::Chunk { segment_index: self.segment_index, offset, bytes: data }
    }

    /// A zero-byte read: the body stream has ended, the segment is done.
    pub fn on_end(&self) -> (event: TaskEvent)
        ensures
            event == (TaskEvent::SegmentDone { segment_index: self.segment_index }),
    {
        TaskEvent::SegmentDone { segment_index: self.segment_index }
    }

    /// This segment's fetch failed; wrap the error as its terminal event.
    pub fn on_failure(&self, error: DownloadError) -> (event: TaskEvent)
        ensures
            event matches TaskEvent::SegmentFailed { segment_index: s, error: e } && s
                == self.segment_index && e == error,
    {
        TaskEvent::SegmentFailed { segment_index: self.segment_index, error }
    }
}

/// Fold the outcome of a finished segment fetch into its terminal event
/// and the position to report: a fetch that streamed to the end at
/// `position` yields `SegmentDone` and reports that position; a failed one
/// yields `SegmentFailed` carrying the error and reports position zero.
pub fn download_part(outcome: Result<u64, DownloadError>, segment_index: usize) -> (terminal: (
    TaskEvent,
    u64,
))
    ensures
        outcome matches Ok(position) ==> terminal.0 == (TaskEvent::SegmentDone { segment_index })
            && terminal.1 == position,
        outcome matches Err(error) ==> (terminal.0 matches TaskEvent::SegmentFailed {
            segment_index: s,
            error: e,
        } && s == segment_index && e == error && terminal.1 == 0),
{
    match outcome {
        Ok(position) => (TaskEvent::SegmentDone { segment_index }, position),
        Err(error) => (TaskEvent::SegmentFailed { segment_index, error }, 0),
    }
}

} // verus!
