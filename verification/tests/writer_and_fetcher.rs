use rangedl::errors::DownloadError;
use rangedl::events::TaskEvent;
use rangedl::fetcher::{download_part, SegmentFetcher};
use rangedl::planner::plan_segments;
use rangedl::progress::{progress_bar_cells, progress_percent};
use rangedl::writer::{DownloadState, Phase, WriteAction};

#[test]
fn fetcher_advances_cursor_and_stamps_offsets() {
    let segs = plan_segments(1_000_000, 4);
    let mut fetcher = SegmentFetcher::new(&segs[2]);
    assert_eq!(fetcher.segment_index, 2);
    assert_eq!(fetcher.position, 500_000);

    let event = fetcher.on_bytes(vec![7u8; 8192]);
    match event {
        TaskEvent::Chunk { segment_index, offset, bytes } => {
            assert_eq!(segment_index, 2);
            assert_eq!(offset, 500_000);
            assert_eq!(bytes, vec![7u8; 8192]);
        }
        _ => panic!("expected a chunk event"),
    }
    assert_eq!(fetcher.position, 508_192);

    let event = fetcher.on_bytes(vec![9u8; 100]);
    match event {
        TaskEvent::Chunk { offset, .. } => assert_eq!(offset, 508_192),
        _ => panic!("expected a chunk event"),
    }

    assert_eq!(fetcher.on_end(), TaskEvent::SegmentDone { segment_index: 2 });
}

#[test]
fn download_part_folds_outcomes_into_terminal_events() {
    let (event, position) = download_part(Ok(123_456), 3);
    assert_eq!(event, TaskEvent::SegmentDone { segment_index: 3 });
    assert_eq!(position, 123_456);

    let error = DownloadError::Transport("connection reset".to_string());
    let (event, position) = download_part(Err(error.clone()), 1);
    assert_eq!(event, TaskEvent::SegmentFailed { segment_index: 1, error });
    assert_eq!(position, 0);
}

/// A full simulated run: every segment of a 1,000,000-byte plan streams its
/// whole range in chunks, and the writer ends in `Succeeded` with exactly
/// 1,000,000 bytes accounted, never observing a decrease on the way.
#[test]
fn simulated_download_succeeds_with_exact_byte_count() {
    let total: u64 = 1_000_000;
    let segs = plan_segments(total, 4);
    let mut events: Vec<TaskEvent> = Vec::new();
    for seg in &segs {
        let mut fetcher = SegmentFetcher::new(seg);
        let mut remaining = seg.length;
        while remaining > 0 {
            let block = remaining.min(8192) as usize;
            events.push(fetcher.on_bytes(vec![0u8; block]));
            remaining -= block as u64;
        }
        assert_eq!(fetcher.position, seg.start_offset + seg.length);
        events.push(fetcher.on_end());
    }

    let mut state = DownloadState::new(total, 4);
    let mut last_seen = 0u64;
    let mut finished = false;
    for event in events {
        assert_eq!(state.phase, Phase::Running);
        let action = state.on_event(event);
        assert!(state.bytes_written >= last_seen, "progress must never decrease");
        last_seen = state.bytes_written;
        match action {
            WriteAction::Write { .. } | WriteAction::KeepGoing => {}
            WriteAction::Finish => finished = true,
            WriteAction::Fail(e) => panic!("unexpected failure: {:?}", e),
        }
    }
    assert!(finished);
    assert_eq!(state.phase, Phase::Succeeded);
    assert_eq!(state.segments_completed, 4);
    assert_eq!(state.bytes_written, total);
}

/// A failing GET on segment 2 of 4 ends the run in `Failed` with the
/// protocol error, even though segments 0, 1 and 3 completed.
#[test]
fn one_failed_segment_fails_the_download() {
    let mut state = DownloadState::new(1_000_000, 4);
    for segment_index in [0usize, 1, 3] {
        let action = state.on_event(TaskEvent::SegmentDone { segment_index });
        assert_eq!(action, WriteAction::KeepGoing);
        assert_eq!(state.phase, Phase::Running);
    }
    let error = DownloadError::Protocol("416 Range Not Satisfiable".to_string());
    let action = state.on_event(TaskEvent::SegmentFailed { segment_index: 2, error: error.clone() });
    assert_eq!(action, WriteAction::Fail(error));
    assert_eq!(state.phase, Phase::Failed);
    assert_eq!(state.segments_completed, 3);
}

#[test]
fn broken_channel_fails_the_download() {
    let mut state = DownloadState::new(10, 2);
    let action = state.on_channel_closed();
    assert_eq!(action, WriteAction::Fail(DownloadError::ChannelClosed));
    assert_eq!(state.phase, Phase::Failed);
}

#[test]
fn chunks_become_positioned_writes() {
    let mut state = DownloadState::new(100, 1);
    let action = state.on_event(TaskEvent::Chunk {
        segment_index: 0,
        offset: 40,
        bytes: vec![1, 2, 3],
    });
    assert_eq!(action, WriteAction::Write { offset: 40, bytes: vec![1, 2, 3] });
    assert_eq!(state.bytes_written, 3);
    assert_eq!(state.phase, Phase::Running);
}

#[test]
fn progress_truncates_and_tops_out_at_completion() {
    assert_eq!(progress_percent(0, 1_000_000), 0);
    assert_eq!(progress_percent(1, 3), 33);
    assert_eq!(progress_percent(999_999, 1_000_000), 99);
    assert_eq!(progress_percent(1_000_000, 1_000_000), 100);
    assert_eq!(progress_bar_cells(5, 10), 25);
    assert_eq!(progress_bar_cells(10, 10), 50);
    assert_eq!(progress_bar_cells(0, 10), 0);
}
