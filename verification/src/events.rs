use vstd::prelude::*;

use crate::errors::DownloadError;

verus! {

/// One event on the fetcher-to-writer channel. Events from different
/// segments may interleave arbitrarily; within one segment, chunk offsets
/// increase monotonically and exactly one terminal event follows them,
/// either `SegmentDone` or `SegmentFailed`, never both.
#[derive(Debug, PartialEq, Eq)]
pub enum TaskEvent {
    /// One block of the response body, with the absolute offset in the
    /// resource at which it starts.
    Chunk { segment_index: usize, offset: u64, bytes: Vec<u8> },
    /// The segment's fetcher failed; the error aborts the whole download.
    SegmentFailed { segment_index: usize, error: DownloadError },
    /// The segment's byte range was streamed to the end.
    SegmentDone { segment_index: usize },
}

} // verus!
