//! The segments of a file.
use bgumcl::download::segment::{
    aligned_progress, is_range_reset_error, part_name, parts_usable, range_matches, retry_delay,
    segment_bounds, segment_count_for_size, segment_directory_name, segment_marker, take_note,
    SegmentDownload, SegmentEvent, SegmentNext, SourceNote,
};
use bgumcl::download::source::{FileSourceTracker, SourceFailureKind};
use bgumcl::error::BGUMCLError;

#[test]
fn v2_segment_count_is_size_bounded() {
    assert_eq!(segment_count_for_size(7 * 1024 * 1024), 1);
    assert_eq!(segment_count_for_size(8 * 1024 * 1024), 2);
    assert_eq!(segment_count_for_size(32 * 1024 * 1024), 4);
    assert_eq!(segment_count_for_size(64 * 1024 * 1024), 8);
}

#[test]
fn range_reset_errors_are_classified_for_clean_resume() {
    assert!(is_range_reset_error(&BGUMCLError(
        "HTTP 416 Range Not Satisfiable".to_string()
    )));
    assert!(is_range_reset_error(&BGUMCLError(
        "Invalid resumed Content-Range".to_string()
    )));
    assert!(!is_range_reset_error(&BGUMCLError(
        "HTTP 500 Internal Server Error".to_string()
    )));
}

#[test]
fn every_message_about_stale_positions_is_recognised() {
    for message in ["416", "RANGE NOT SATISFIABLE", "resumed response STARTS at 3"] {
        assert!(is_range_reset_error(&BGUMCLError(message.to_string())));
    }
    assert!(!is_range_reset_error(&BGUMCLError(String::new())));
    assert!(!is_range_reset_error(&BGUMCLError(
        "Resumed response omitted Content-Range".to_string()
    )));
}

#[test]
fn retry_delays_double_up_to_four_seconds() {
    assert_eq!(retry_delay(0), 500);
    assert_eq!(retry_delay(1), 1000);
    assert_eq!(retry_delay(2), 2000);
    assert_eq!(retry_delay(3), 4000);
    assert_eq!(retry_delay(9), 4000);
}

#[test]
fn segments_cover_a_file_without_gap_or_overlap() {
    for total in [8 * 1024 * 1024i64, 8 * 1024 * 1024 + 1, 33_554_433, 67_108_871] {
        let count = segment_count_for_size(total);
        let mut next = 0;
        for index in 0..count {
            let (start, end) = segment_bounds(total, count, index);
            assert_eq!(start, next);
            assert!(start <= end);
            next = end + 1;
        }
        assert_eq!(next, total);
    }
    assert_eq!(segment_bounds(10, 4, 0), (0, 2));
    assert_eq!(segment_bounds(10, 4, 3), (9, 9));
}

#[test]
fn parts_are_kept_under_names_and_a_mark() {
    assert_eq!(segment_marker(100, 4), "100:4");
    assert_eq!(part_name(3), "part-3");
    assert_eq!(segment_directory_name(&Some("a.jar".to_string())), ".a.jar.bgumcl-parts");
    assert_eq!(segment_directory_name(&None), ".download.bgumcl-parts");
    assert!(parts_usable(&Some("100:4".to_string()), 100, 4));
    assert!(!parts_usable(&Some("100:2".to_string()), 100, 4));
    assert!(!parts_usable(&None, 100, 4));
    assert_eq!(aligned_progress(&vec![3, 0, 4], 7), None);
    assert_eq!(aligned_progress(&vec![3, 0, 4], 6), Some(7));
    assert_eq!(aligned_progress(&vec![], 6), Some(0));
}

#[test]
fn ranges_match_only_what_was_asked_for() {
    let header = |s: &str| Some(s.to_string());
    assert!(range_matches(&header("bytes 5-9/10"), 5, 9));
    assert!(range_matches(&header("bytes 5-9/*"), 5, 9));
    assert!(!range_matches(&header("bytes 4-9/10"), 5, 9));
    assert!(!range_matches(&header("bytes 5-8/10"), 5, 9));
    assert!(!range_matches(&header("5-9/10"), 5, 9));
    assert!(!range_matches(&header("bytes 5-9"), 5, 9));
    assert!(!range_matches(&header("bytes 59/10"), 5, 9));
    assert!(!range_matches(&header("bytes x-9/10"), 5, 9));
    assert!(!range_matches(&None, 5, 9));
}

#[test]
fn notes_reach_the_sources() {
    let mut tracker = FileSourceTracker::new(vec!["a".to_string(), "b".to_string()]);
    take_note(&mut tracker, "a", SourceNote::Nothing, 0);
    assert_eq!(tracker.ordered_candidates_at(0, 0), vec!["a", "b"]);
    take_note(&mut tracker, "a", SourceNote::Failed { kind: SourceFailureKind::Range }, 0);
    assert_eq!(tracker.ordered_candidates_at(0, 0), vec!["b"]);
    take_note(&mut tracker, "a", SourceNote::Recover, 0);
    assert_eq!(tracker.ordered_candidates_at(0, 0), vec!["a", "b"]);
}

fn answered(range: &str, length: u64) -> SegmentEvent {
    SegmentEvent::Answered {
        content_range: Some(range.to_string()),
        content_length: Some(length),
    }
}

#[test]
fn a_segment_goes_on_where_its_part_ends() {
    let mut segment = SegmentDownload::begin(100, 199, 2);
    let step = segment.step(SegmentEvent::PartLength { length: 40 });
    assert!(matches!(step.next, SegmentNext::Ask { from: 140, offset: 2 }));
    assert!(!step.remove_part);
    let step = segment.step(answered("bytes 140-199/1000", 60));
    assert!(matches!(step.next, SegmentNext::Receive));
    let step = segment.step(SegmentEvent::Received { length: 100 });
    assert!(matches!(step.next, SegmentNext::Done));
}

#[test]
fn a_complete_part_is_not_asked_for() {
    let mut segment = SegmentDownload::begin(0, 9, 0);
    let step = segment.step(SegmentEvent::PartLength { length: 10 });
    assert!(matches!(step.next, SegmentNext::Done));
}

#[test]
fn a_part_that_is_too_long_is_thrown_away() {
    let mut segment = SegmentDownload::begin(0, 9, 0);
    let step = segment.step(SegmentEvent::PartLength { length: 11 });
    assert!(step.remove_part);
    assert!(matches!(step.next, SegmentNext::Ask { from: 0, offset: 0 }));
}

#[test]
fn an_answer_for_another_range_counts_against_its_source() {
    let mut segment = SegmentDownload::begin(0, 9, 0);
    for attempt in 0..3 {
        segment.step(SegmentEvent::PartLength { length: 0 });
        let step = segment.step(answered("bytes 0-8/10", 9));
        assert_eq!(step.note, SourceNote::Failed { kind: SourceFailureKind::Range });
        assert_eq!(step.delay_ms, 0);
        assert!(matches!(step.next, SegmentNext::Check), "attempt {}", attempt);
    }
    segment.step(SegmentEvent::PartLength { length: 0 });
    let step = segment.step(SegmentEvent::Answered {
        content_range: Some("bytes 0-9/10".to_string()),
        content_length: None,
    });
    match step.next {
        SegmentNext::Fail { error } => assert_eq!(
            error.0,
            "Segment response mismatch: expected range 0-9 and length 10, got range=true length=None"
        ),
        other => panic!("{:?}", other),
    }
}

#[test]
fn a_mismatch_shows_the_length_that_came() {
    let mut segment = SegmentDownload::begin(5, 9, 0);
    for _ in 0..3 {
        segment.step(SegmentEvent::PartLength { length: 0 });
        segment.step(SegmentEvent::BrokenOff { error: BGUMCLError("cut".to_string()) });
    }
    segment.step(SegmentEvent::PartLength { length: 2 });
    let step = segment.step(answered("bytes 0-4/10", 5));
    match step.next {
        SegmentNext::Fail { error } => assert_eq!(
            error.0,
            "Segment response mismatch: expected range 7-9 and length 3, got range=false length=Some(5)"
        ),
        other => panic!("{:?}", other),
    }
}

#[test]
fn a_stale_part_is_removed_and_the_sources_recover() {
    let mut segment = SegmentDownload::begin(0, 9, 0);
    for _ in 0..3 {
        segment.step(SegmentEvent::PartLength { length: 4 });
        let step = segment.step(SegmentEvent::NoAnswer {
            error: BGUMCLError("HTTP 416".to_string()),
        });
        assert_eq!(step.note, SourceNote::Recover);
        assert!(step.remove_part);
        assert_eq!(step.delay_ms, 0);
        assert!(matches!(step.next, SegmentNext::Check));
    }
    segment.step(SegmentEvent::PartLength { length: 4 });
    let step = segment.step(SegmentEvent::NoAnswer { error: BGUMCLError("416".to_string()) });
    match step.next {
        SegmentNext::Fail { error } => {
            assert_eq!(error.0, "Segment download did not complete: 0-9")
        }
        other => panic!("{:?}", other),
    }
}

#[test]
fn failures_are_repeated_after_a_growing_wait() {
    let mut segment = SegmentDownload::begin(0, 9, 1);
    for (attempt, delay) in [(0usize, 500u64), (1, 1000), (2, 2000)] {
        let step = segment.step(SegmentEvent::PartLength { length: 0 });
        match step.next {
            SegmentNext::Ask { from, offset } => assert_eq!((from, offset), (0, 1 + attempt)),
            other => panic!("{:?}", other),
        }
        let step = segment.step(SegmentEvent::NoAnswer { error: BGUMCLError("no".to_string()) });
        assert_eq!(step.delay_ms, delay);
        assert_eq!(step.note, SourceNote::Nothing);
    }
    segment.step(SegmentEvent::PartLength { length: 0 });
    let step = segment.step(SegmentEvent::NoAnswer { error: BGUMCLError("no".to_string()) });
    assert!(matches!(step.next, SegmentNext::Fail { error } if error.0 == "no"));
}

#[test]
fn a_short_part_counts_as_a_broken_transfer() {
    let mut segment = SegmentDownload::begin(0, 9, 0);
    segment.step(SegmentEvent::PartLength { length: 0 });
    segment.step(answered("bytes 0-9/10", 10));
    let step = segment.step(SegmentEvent::Received { length: 6 });
    assert_eq!(step.note, SourceNote::Failed { kind: SourceFailureKind::Transfer });
    assert_eq!(step.delay_ms, 500);
    assert!(matches!(step.next, SegmentNext::Check));
}
