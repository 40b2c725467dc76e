use vstd::prelude::*;

use crate::errors::DownloadError;
use crate::events::TaskEvent;
use crate::planner::{effective_threads, planned_segments, total_planned};

verus! {

/// The terminal classification of a download run.
#[derive(Debug, Clone, Copy, PartialEq, Eq, Structural)]
pub enum Phase {
    /// Events are still being consumed.
    Running,
    /// Every segment reported completion.
    Succeeded,
    /// A failure was observed; its error was handed to the caller.
    Failed,
}

/// What the caller must do with the event it just handed in.
#[derive(Debug, PartialEq, Eq)]
pub enum WriteAction {
    /// Perform a positioned write of `bytes` at absolute offset `offset`
    /// in the output file, then keep consuming.
    Write { offset: u64, bytes: Vec<u8> },
    /// Nothing to write; keep consuming.
    KeepGoing,
    /// All segments are complete: flush the file and report success.
    Finish,
    /// The download failed with this error: stop consuming and return it.
    /// In-flight fetchers are not cancelled; any later events are ignored.
    Fail(DownloadError),
}

/// The single consumer's state: it alone touches the output file, using
/// each chunk's explicit offset — never arrival order — to place writes,
/// while events from different segments interleave arbitrarily.
pub struct DownloadState {
    pub total_size: u64,
    pub threads: usize,
    pub bytes_written: u64,
    pub segments_completed: usize,
    pub phase: Phase,
}

impl DownloadState {
    /// Internal invariant, established by `new` and preserved by every
    /// transition: completions never pass the segment count, a running
    /// download still has segments outstanding, and success means every
    /// segment completed.
    pub open spec fn wf(self) -> bool {
        &&& self.threads >= 1
        &&& self.total_size > 0
        &&& self.segments_completed <= self.threads
        &&& (self.phase is Running ==> self.segments_completed < self.threads)
        &&& (self.phase is Succeeded ==> self.segments_completed == self.threads)
    }

    /// Begin consuming events for a download of `total_size` bytes split
    /// across `threads` segments.
    pub fn new(total_size: u64, threads: usize) -> (state: Self)
        requires
            total_size > 0,
            threads >= 1,
        ensures
            state.wf(),
            state.total_size == total_size,
            state.threads == threads,
            state.bytes_written == 0,
            state.segments_completed == 0,
            state.phase is Running,
    {
        DownloadState {
            total_size,
            threads,
            bytes_written: 0,
            segments_completed: 0,
            phase: Phase::Running,
        }
    }

    /// Consume one channel event and decide what to do with it.
    ///
    /// A chunk adds its size to `bytes_written` — which therefore never
    /// decreases across a run — and is turned into a positioned write at
    /// the chunk's own offset. A completion either finishes the download
    /// (when it is the last outstanding segment) or keeps it running. A
    /// segment failure moves the state to `Failed` at once and hands the
    /// originating error back, no matter how many segments had already
    /// completed: the first failure observed wins and no success
    /// transition can follow, since a failed state accepts no more events.
    pub fn on_event(&mut self, event: TaskEvent) -> (action: WriteAction)
        requires
            old(self).wf(),
            old(self).phase is Running,
            event matches TaskEvent::Chunk { segment_index: ci, offset: co, bytes: cb }
                ==> old(self).bytes_written + cb@.len() <= u64::MAX,
        ensures
            final(self).wf(),
            final(self).total_size == old(self).total_size,
            final(self).threads == old(self).threads,
            final(self).bytes_written >= old(self).bytes_written,
            event matches TaskEvent::Chunk { segment_index: ci, offset: co, bytes: cb } ==> ({
                &&& final(self).phase is Running
                &&& final(self).bytes_written == old(self).bytes_written + cb@.len()
                &&& final(self).segments_completed == old(self).segments_completed
                &&& (action matches WriteAction::Write { offset: ao, bytes: ab } && ao == co && ab@
                    == cb@)
            }),
            event matches TaskEvent::SegmentDone { segment_index: di } ==> ({
                &&& final(self).bytes_written == old(self).bytes_written
                &&& final(self).segments_completed == old(self).segments_completed + 1
                &&& (final(self).segments_completed == final(self).threads
                    ==> final(self).phase is Succeeded && action is Finish)
                &&& (final(self).segments_completed < final(self).threads
                    ==> final(self).phase is Running && action is KeepGoing)
            }),
            event matches TaskEvent::SegmentFailed { segment_index: fi, error: fe } ==> ({
                &&& final(self).phase is Failed
                &&& final(self).bytes_written == old(self).bytes_written
                &&& final(self).segments_completed == old(self).segments_completed
                &&& (action matches WriteAction::Fail(ae) && ae == fe)
            }),
    {
        match event {
            TaskEvent::Chunk { segment_index: _, offset, bytes } => {
                self.bytes_written = self.bytes_written + bytes.len() as u64;
                WriteAction::Write { offset, bytes }
            },
            TaskEvent::SegmentDone { segment_index: _ } => {
                self.segments_completed = self.segments_completed + 1;
                if self.segments_completed == self.threads {
                    self.phase = Phase::Succeeded;
                    WriteAction::Finish
                } else {
                    WriteAction::KeepGoing
                }
            },
            TaskEvent::SegmentFailed { segment_index: _, error } => {
                self.phase = Phase::Failed;
                WriteAction::Fail(error)
            },
        }
    }

    /// The channel broke before a terminal condition was reached: every
    /// sender is gone. The download fails with `ChannelClosed`.
    pub fn on_channel_closed(&mut self) -> (action: WriteAction)
        requires
            old(self).wf(),
            old(self).phase is Running,
        ensures
            final(self).wf(),
            final(self).phase is Failed,
            final(self).total_size == old(self).total_size,
            final(self).threads == old(self).threads,
            final(self).bytes_written == old(self).bytes_written,
            final(self).segments_completed == old(self).segments_completed,
            action == WriteAction::Fail(DownloadError::ChannelClosed),
    {
        self.phase = Phase::Failed;
        WriteAction::Fail(DownloadError::ChannelClosed)
    }
}

/// The payload size of one event: a chunk contributes the length of its
/// bytes, a terminal event contributes nothing.
pub open spec fn chunk_bytes(event: TaskEvent) -> int {
    match event {
        TaskEvent::Chunk { segment_index, offset, bytes } => bytes@.len() as int,
        TaskEvent::SegmentFailed { segment_index, error } => 0,
        TaskEvent::SegmentDone { segment_index } => 0,
    }
}

/// Total payload of a run of events, in the order the consumer saw them.
pub open spec fn delivered_bytes(events: Seq<TaskEvent>) -> int
    decreases events.len(),
{
    if events.len() == 0 {
        0
    } else {
        delivered_bytes(events.drop_last()) + chunk_bytes(events.last())
    }
}

/// Progress is monotone across a whole run: no prefix of an event stream
/// delivers more than the stream itself, and no stream delivers a
/// negative byte count. Together with `on_event`, which adds exactly each
/// chunk's size to `bytes_written`, the byte count the writer observes
/// never decreases at any point of a run.
pub proof fn lemma_delivered_bytes_monotone(events: Seq<TaskEvent>, k: int)
    requires
        0 <= k <= events.len(),
    ensures
        delivered_bytes(events) >= 0,
        delivered_bytes(events.take(k)) <= delivered_bytes(events),
    decreases events.len(),
{
    if events.len() == 0 {
        assert(events.take(k) =~= events);
    } else if k == events.len() {
        assert(events.take(k) =~= events);
        lemma_delivered_bytes_monotone(events.drop_last(), 0);
    } else {
        assert(events.drop_last().take(k) =~= events.take(k));
        lemma_delivered_bytes_monotone(events.drop_last(), k);
    }
}

/// The payload one event contributes to segment `segment` alone.
pub open spec fn chunk_bytes_for(event: TaskEvent, segment: int) -> int {
    match event {
        TaskEvent::Chunk { segment_index, offset, bytes } => if segment_index == segment {
            bytes@.len() as int
        } else {
            0
        },
        TaskEvent::SegmentFailed { segment_index, error } => 0,
        TaskEvent::SegmentDone { segment_index } => 0,
    }
}

/// Total payload one segment's chunks contributed to a run, however the
/// events of different segments interleaved.
pub open spec fn delivered_bytes_for(events: Seq<TaskEvent>, segment: int) -> int
    decreases events.len(),
{
    if events.len() == 0 {
        0
    } else {
        delivered_bytes_for(events.drop_last(), segment) + chunk_bytes_for(events.last(), segment)
    }
}

/// One event's payload, summed over the segments `0 .. segment_count`.
pub open spec fn chunk_bytes_below(event: TaskEvent, segment_count: int) -> int
    decreases segment_count,
{
    if segment_count <= 0 {
        0
    } else {
        chunk_bytes_below(event, segment_count - 1) + chunk_bytes_for(event, segment_count - 1)
    }
}

/// A run's payload, summed segment by segment over `0 .. segment_count`.
pub open spec fn delivered_by_segments(events: Seq<TaskEvent>, segment_count: int) -> int
    decreases segment_count,
{
    if segment_count <= 0 {
        0
    } else {
        delivered_by_segments(events, segment_count - 1) + delivered_bytes_for(
            events,
            segment_count - 1,
        )
    }
}

/// Whether every chunk of the run names a segment below `segment_count`.
pub open spec fn segments_below(events: Seq<TaskEvent>, segment_count: int) -> bool {
    forall|k: int|
        0 <= k < events.len() ==> chunk_segment_ok(#[trigger] events[k], segment_count)
}

/// Whether one event names a segment below `segment_count` (terminal
/// events carry no payload, so they always qualify).
pub open spec fn chunk_segment_ok(event: TaskEvent, segment_count: int) -> bool {
    match event {
        TaskEvent::Chunk { segment_index, offset, bytes } => segment_index < segment_count,
        TaskEvent::SegmentFailed { segment_index, error } => true,
        TaskEvent::SegmentDone { segment_index } => true,
    }
}

proof fn lemma_chunk_bytes_below(event: TaskEvent, segment_count: int)
    requires
        segment_count >= 0,
    ensures
        chunk_segment_ok(event, segment_count) ==> chunk_bytes_below(event, segment_count)
            == chunk_bytes(event),
        !chunk_segment_ok(event, segment_count) ==> chunk_bytes_below(event, segment_count) == 0,
    decreases segment_count,
{
    if segment_count > 0 {
        lemma_chunk_bytes_below(event, segment_count - 1);
    }
}

proof fn lemma_push_by_segments(events: Seq<TaskEvent>, event: TaskEvent, segment_count: int)
    requires
        segment_count >= 0,
    ensures
        delivered_by_segments(events.push(event), segment_count) == delivered_by_segments(
            events,
            segment_count,
        ) + chunk_bytes_below(event, segment_count),
    decreases segment_count,
{
    if segment_count > 0 {
        lemma_push_by_segments(events, event, segment_count - 1);
        assert(events.push(event).drop_last() =~= events);
        assert(events.push(event).last() == event);
    }
}

proof fn lemma_empty_by_segments(events: Seq<TaskEvent>, segment_count: int)
    requires
        events.len() == 0,
        segment_count >= 0,
    ensures
        delivered_by_segments(events, segment_count) == 0,
    decreases segment_count,
{
    if segment_count > 0 {
        lemma_empty_by_segments(events, segment_count - 1);
    }
}

/// Counting a run's payload all at once and counting it segment by
/// segment agree, whatever the interleaving: the writer's single count of
/// every chunk equals the sum of what each fetcher delivered.
pub proof fn lemma_delivered_partition(events: Seq<TaskEvent>, segment_count: int)
    requires
        segment_count >= 0,
        segments_below(events, segment_count),
    ensures
        delivered_bytes(events) == delivered_by_segments(events, segment_count),
    decreases events.len(),
{
    if events.len() == 0 {
        lemma_empty_by_segments(events, segment_count);
    } else {
        let shorter = events.drop_last();
        let last = events.last();
        assert(segments_below(shorter, segment_count));
        lemma_delivered_partition(shorter, segment_count);
        lemma_push_by_segments(shorter, last, segment_count);
        assert(shorter.push(last) =~= events);
        lemma_chunk_bytes_below(last, segment_count);
    }
}

proof fn lemma_segments_sum_plan(events: Seq<TaskEvent>, total_size: u64, threads: usize, k: int)
    requires
        0 <= k <= effective_threads(threads),
        forall|i: int|
            0 <= i < effective_threads(threads) ==> #[trigger] delivered_bytes_for(events, i)
                == planned_segments(total_size, threads)[i].length,
    ensures
        delivered_by_segments(events, k) == total_planned(
            planned_segments(total_size, threads).take(k),
        ),
    decreases k,
{
    let p = planned_segments(total_size, threads);
    if k == 0 {
        assert(p.take(0) =~= Seq::<crate::planner::Segment>::empty());
    } else {
        lemma_segments_sum_plan(events, total_size, threads, k - 1);
        assert(p.take(k).drop_last() =~= p.take(k - 1));
        assert(p.take(k).last() == p[k - 1]);
    }
}

/// The byte count at success, across arbitrary interleavings: take any
/// run of events in which every chunk belongs to one of the plan's
/// segments and, segment by segment, the chunks of segment `i` total
/// exactly segment `i`'s planned length — which is what a fetcher that
/// streams its whole range delivers. Then the run's payload is exactly
/// `total_size`, in whatever order the events arrived; and since
/// `on_event` adds each chunk's size to `bytes_written` exactly once, the
/// writer's count reads `total_size` at the moment the download
/// succeeds. Needs a plan whose division remainder is at most one unit,
/// the condition under which the plan covers the resource exactly (see
/// `lemma_plan_contiguous_covers`).
pub proof fn lemma_success_bytes_total(total_size: u64, threads: usize, events: Seq<TaskEvent>)
    requires
        total_size as int % effective_threads(threads) <= 1,
        segments_below(events, effective_threads(threads)),
        forall|i: int|
            0 <= i < effective_threads(threads) ==> #[trigger] delivered_bytes_for(events, i)
                == planned_segments(total_size, threads)[i].length,
    ensures
        delivered_bytes(events) == total_size,
{
    let t = effective_threads(threads);
    lemma_delivered_partition(events, t);
    lemma_segments_sum_plan(events, total_size, threads, t);
    assert(planned_segments(total_size, threads).take(t) =~= planned_segments(
        total_size,
        threads,
    ));
    crate::planner::lemma_plan_contiguous_covers(total_size, threads);
}

} // verus!
