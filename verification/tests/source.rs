//! Which of the sources of a file is tried next.
use std::time::Duration;

use bgumcl::download::source::{FileSourceTracker, SourceFailureKind};

fn tracker(names: &[&str]) -> FileSourceTracker {
    FileSourceTracker::new(names.iter().map(|s| s.to_string()).collect())
}

const SECOND: u128 = 1_000_000_000;

#[test]
fn failure_advances_to_a_different_candidate() {
    let mut tracker = FileSourceTracker::new(vec!["a".into(), "b".into(), "c".into()]);
    assert_eq!(tracker.ordered_candidates(0)[0], "a");
    tracker.record_failure("a", SourceFailureKind::Timeout);
    assert_eq!(tracker.ordered_candidates(0)[0], "b");
}

#[test]
fn successful_candidate_stays_preferred_until_it_fails() {
    let mut tracker = FileSourceTracker::new(vec!["a".into(), "b".into()]);
    tracker.record_response("b", Duration::from_millis(40).as_nanos());
    assert_eq!(tracker.ordered_candidates(0)[0], "b");
    tracker.record_failure("b", SourceFailureKind::Transfer);
    assert_eq!(tracker.ordered_candidates(0)[0], "a");
}

#[test]
fn duplicate_candidates_are_removed_without_reordering() {
    let tracker = FileSourceTracker::new(vec!["a".into(), "b".into(), "a".into()]);
    assert_eq!(tracker.ordered_candidates(0), vec!["a", "b"]);
}

#[test]
fn no_sources_give_no_order() {
    let tracker = tracker(&[]);
    assert!(tracker.ordered_candidates(0).is_empty());
    assert!(tracker.ordered_candidates(7).is_empty());
}

#[test]
fn an_offset_turns_the_round_and_ignores_the_preferred_source() {
    let mut tracker = tracker(&["a", "b", "c"]);
    assert_eq!(tracker.ordered_candidates(1), vec!["b", "c", "a"]);
    assert_eq!(tracker.ordered_candidates(5), vec!["c", "a", "b"]);
    tracker.record_response("c", 1);
    assert_eq!(tracker.ordered_candidates(0), vec!["c", "a", "b"]);
    assert_eq!(tracker.ordered_candidates(1), vec!["a", "b", "c"]);
}

#[test]
fn rests_last_as_long_as_the_kind_of_failure_says() {
    for (kind, seconds) in [
        (SourceFailureKind::Connection, 2u128),
        (SourceFailureKind::Transfer, 2),
        (SourceFailureKind::Timeout, 4),
        (SourceFailureKind::Http, 6),
        (SourceFailureKind::RateLimited, 20),
        (SourceFailureKind::Range, 30),
        (SourceFailureKind::Integrity, 60),
    ] {
        let mut tracker = tracker(&["a", "b"]);
        tracker.record_failure_at("a", kind, 5 * SECOND);
        assert_eq!(tracker.wait_before_retry_at("a", 5 * SECOND), seconds * SECOND);
        assert_eq!(tracker.wait_before_retry_at("a", 6 * SECOND), (seconds - 1) * SECOND);
        assert_eq!(tracker.wait_before_retry_at("a", (5 + seconds) * SECOND), 0);
        assert_eq!(tracker.wait_before_retry_at("b", 5 * SECOND), 0);
        assert_eq!(tracker.ordered_candidates_at(0, 5 * SECOND), vec!["b"]);
        assert_eq!(tracker.ordered_candidates_at(0, (5 + seconds) * SECOND), vec!["b", "a"]);
    }
}

#[test]
fn rests_double_up_to_eightfold() {
    let mut tracker = tracker(&["a"]);
    for (failures, factor) in [(1u32, 1u128), (2, 2), (3, 4), (4, 8), (5, 8)] {
        tracker.record_failure_at("a", SourceFailureKind::Timeout, 0);
        assert_eq!(tracker.candidate_health("a").failures, failures);
        assert_eq!(tracker.wait_before_retry_at("a", 0), 4 * factor * SECOND);
    }
    tracker.record_response("a", 17);
    let health = tracker.candidate_health("a");
    assert_eq!(health.failures, 4);
    assert_eq!(health.cooldown_until, None);
    assert_eq!(health.latency_nanos, Some(17));
}

#[test]
fn if_all_rest_the_first_to_end_its_rest_comes_first() {
    let mut tracker = tracker(&["a", "b", "c"]);
    tracker.record_failure_at("a", SourceFailureKind::Integrity, 0);
    tracker.record_failure_at("b", SourceFailureKind::Timeout, 0);
    tracker.record_failure_at("c", SourceFailureKind::Http, 0);
    assert_eq!(tracker.ordered_candidates_at(0, SECOND), vec!["b", "c", "a"]);
}

#[test]
fn the_order_lists_what_is_ready_or_everything_by_the_end_of_its_rest() {
    let mut tracker = tracker(&["a", "b", "c"]);
    tracker.record_response("c", 1);
    tracker.record_failure_at("a", SourceFailureKind::Integrity, 0);
    assert_eq!(tracker.ordered_candidates_at(0, 0), vec!["c", "b"]);
    tracker.record_failure_at("b", SourceFailureKind::Timeout, 0);
    assert_eq!(tracker.ordered_candidates_at(0, 0), vec!["c"]);
    tracker.record_failure_at("c", SourceFailureKind::RateLimited, 0);
    for offset in 0..4 {
        assert_eq!(tracker.ordered_candidates_at(offset, 0), vec!["b", "c", "a"]);
    }
    assert_eq!(tracker.ordered_candidates_at(0, 4 * SECOND), vec!["b"]);
}

#[test]
fn a_source_that_was_not_listed_is_remembered_but_never_tried() {
    let mut tracker = tracker(&["a", "b"]);
    tracker.record_response("elsewhere", 3);
    assert_eq!(tracker.ordered_candidates_at(0, 0), vec!["a", "b"]);
    tracker.record_failure_at("elsewhere", SourceFailureKind::Http, 0);
    assert_eq!(tracker.wait_before_retry_at("elsewhere", 0), 6 * SECOND);
    assert_eq!(tracker.ordered_candidates_at(0, 0), vec!["a", "b"]);
}

#[test]
fn transfers_leave_samples_and_do_not_reorder() {
    let mut tracker = tracker(&["a", "b"]);
    tracker.record_transfer("b", 0, 10);
    tracker.record_transfer("b", 10, 0);
    tracker.record_transfer("b", -4, 10);
    assert_eq!(tracker.candidate_health("b").transfer, None);
    tracker.record_transfer("b", 4096, 20);
    let report = tracker.candidate_health("b").transfer.unwrap();
    assert_eq!((report.bytes, report.elapsed_nanos), (4096, 20));
    assert_eq!(tracker.ordered_candidates_at(0, 0), vec!["a", "b"]);
}

#[test]
fn another_failure_keeps_the_preferred_source() {
    let mut tracker = tracker(&["a", "b", "c"]);
    tracker.record_response("c", 1);
    tracker.record_failure_at("a", SourceFailureKind::Http, 0);
    assert_eq!(tracker.ordered_candidates_at(0, 0)[0], "c");
}

#[test]
fn recovery_restores_the_order_and_keeps_what_was_measured() {
    let mut tracker = tracker(&["a", "b", "c"]);
    tracker.record_response("b", 9);
    tracker.record_transfer("b", 100, 7);
    tracker.record_failure_at("a", SourceFailureKind::Integrity, 0);
    tracker.record_failure_at("b", SourceFailureKind::Range, 0);
    tracker.reset_for_recovery();
    assert_eq!(tracker.ordered_candidates_at(0, 0), vec!["a", "b", "c"]);
    let health = tracker.candidate_health("b");
    assert_eq!((health.failures, health.cooldown_until), (0, None));
    assert_eq!(health.latency_nanos, Some(9));
    assert!(health.transfer.is_some());
}

#[test]
fn the_clock_of_a_tracker_runs() {
    let mut tracker = tracker(&["a"]);
    tracker.record_failure("a", SourceFailureKind::Integrity);
    let left = tracker.wait_before_retry("a");
    assert!(left > 0 && left <= 60 * SECOND);
}
