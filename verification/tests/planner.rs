use rangedl::planner::{plan_segments, Segment};

#[test]
fn million_split_four_ways() {
    let segs = plan_segments(1_000_000, 4);
    assert_eq!(segs.len(), 4);
    let expected = [
        (0usize, 0u64, 250_000u64),
        (1, 250_000, 250_000),
        (2, 500_000, 250_000),
        (3, 750_000, 250_000),
    ];
    for (seg, (index, start, length)) in segs.iter().zip(expected.iter()) {
        assert_eq!(seg.index, *index);
        assert_eq!(seg.start_offset, *start);
        assert_eq!(seg.length, *length);
    }
}

#[test]
fn remainder_goes_to_last_segment() {
    let segs = plan_segments(10, 3);
    assert_eq!(segs.len(), 3);
    assert_eq!(segs[0].start_offset, 0);
    assert_eq!(segs[0].length, 3);
    assert_eq!(segs[1].start_offset, 3);
    assert_eq!(segs[1].length, 3);
    assert_eq!(segs[2].start_offset, 6);
    assert_eq!(segs[2].length, 4);
}

#[test]
fn single_thread_covers_everything() {
    let segs = plan_segments(12_345, 1);
    assert_eq!(segs.len(), 1);
    assert_eq!(
        segs[0],
        Segment { index: 0, start_offset: 0, length: 12_345 }
    );
}

#[test]
fn zero_threads_coerced_to_one() {
    let segs = plan_segments(100, 0);
    assert_eq!(segs.len(), 1);
    assert_eq!(segs[0].start_offset, 0);
    assert_eq!(segs[0].length, 100);
}

#[test]
fn planning_is_idempotent() {
    let first = plan_segments(987_654_321, 7);
    let second = plan_segments(987_654_321, 7);
    assert_eq!(first, second);
}

#[test]
fn segments_sorted_disjoint_and_cover() {
    for &(size, threads) in &[(1_000u64, 8usize), (10, 3), (1_000_000, 4), (1, 5), (7, 2)] {
        let segs = plan_segments(size, threads);
        let mut sum = 0u64;
        for w in segs.windows(2) {
            // sorted and contiguous: each segment ends where the next starts
            assert_eq!(w[0].start_offset + w[0].length, w[1].start_offset);
        }
        for seg in &segs {
            sum += seg.length;
        }
        assert_eq!(segs[0].start_offset, 0);
        let last = segs.last().unwrap();
        assert_eq!(last.start_offset + last.length, size);
        assert_eq!(sum, size);
    }
}

#[test]
fn segments_sorted_disjoint_with_large_remainder() {
    // a remainder of two or more leaves gaps between segments, but they
    // stay sorted and pairwise non-overlapping
    let segs = plan_segments(5, 3);
    for w in segs.windows(2) {
        assert!(w[0].start_offset + w[0].length <= w[1].start_offset);
    }
    let last = segs.last().unwrap();
    assert_eq!(last.start_offset + last.length, 5);
}
