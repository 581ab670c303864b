//! The download of one file.
use bgumcl::download::request::StreamPlan;
use bgumcl::download::segment::SourceNote;
use bgumcl::download::source::SourceFailureKind;
use bgumcl::download::task::{
    cancelled_error, cleans_up, read_gate, silent_source_error, DownloadEvent, DownloadNext,
    DownloadTask, ReadGate, TransferMeter,
};
use bgumcl::error::BGUMCLError;

fn error(message: &str) -> BGUMCLError {
    BGUMCLError(message.to_string())
}

fn plan(total: i64, restart: bool, ranges: bool) -> DownloadEvent {
    DownloadEvent::Opened {
        plan: StreamPlan {
            total_progress: total,
            restart_from_zero: restart,
            supports_ranges: ranges,
        },
    }
}

#[test]
fn a_file_is_received_checked_and_completed() {
    let (mut task, step) = DownloadTask::begin(0, false);
    assert!(matches!(step.next, DownloadNext::Ask { from: 0, recover: false }));
    let step = task.step(plan(100, false, true));
    assert_eq!((step.set_current, step.set_total), (None, Some(100)));
    assert!(matches!(step.next, DownloadNext::Receive { from: 0 }));
    let step = task.step(DownloadEvent::Received { file_length: 100 });
    assert!(matches!(step.next, DownloadNext::Check));
    let step = task.step(DownloadEvent::Intact);
    assert!(matches!(step.next, DownloadNext::Complete));
}

#[test]
fn a_large_file_is_cut_on_the_first_attempt() {
    let (mut task, _) = DownloadTask::begin(0, false);
    let step = task.step(plan(32 * 1024 * 1024, false, true));
    assert!(matches!(step.next, DownloadNext::Segments { total: 33554432, count: 4 }));
    let step = task.step(DownloadEvent::SegmentsDone);
    assert!(matches!(step.next, DownloadNext::Check));
    let step = task.step(DownloadEvent::Damaged { error: error("sha1"), file_length: 5 });
    assert_eq!(step.note, SourceNote::Failed { kind: SourceFailureKind::Integrity });
    assert!(step.remove_parts && step.remove_file);
    assert_eq!(step.set_current, Some(0));
    assert_eq!(step.delay_ms, 0);
    assert!(matches!(step.next, DownloadNext::Ask { from: 0, recover: false }));
    let step = task.step(plan(32 * 1024 * 1024, false, true));
    assert!(matches!(step.next, DownloadNext::Receive { from: 0 }));
}

#[test]
fn files_are_not_cut_where_it_does_not_pay() {
    for (current, limited, event) in [
        (0, true, plan(64 * 1024 * 1024, false, true)),
        (0, false, plan(64 * 1024 * 1024, false, false)),
        (0, false, plan(1024, false, true)),
        (7, false, plan(64 * 1024 * 1024, false, true)),
    ] {
        let (mut task, _) = DownloadTask::begin(current, limited);
        let step = task.step(event);
        assert!(matches!(step.next, DownloadNext::Receive { .. }));
    }
}

#[test]
fn failing_segments_become_fewer_and_at_last_a_single_stream() {
    let (mut task, _) = DownloadTask::begin(0, false);
    let step = task.step(plan(64 * 1024 * 1024, false, true));
    assert!(matches!(step.next, DownloadNext::Segments { total: 67108864, count: 8 }));
    for fewer in [4, 2] {
        let step = task.step(DownloadEvent::SegmentsFailed { error: error("part") });
        assert_eq!(step.note, SourceNote::Nothing);
        assert!(step.remove_parts && step.remove_file);
        assert_eq!((step.set_current, step.delay_ms), (Some(0), 0));
        match step.next {
            DownloadNext::Segments { total, count } => {
                assert_eq!((total, count), (67108864, fewer));
            }
            other => panic!("{:?}", other),
        }
    }
    let step = task.step(DownloadEvent::SegmentsFailed { error: error("part") });
    assert!(step.remove_parts && step.remove_file);
    assert!(matches!(step.next, DownloadNext::Ask { from: 0, recover: false }));
    let step = task.step(plan(64 * 1024 * 1024, false, true));
    assert!(matches!(step.next, DownloadNext::Receive { from: 0 }));
}

#[test]
fn fewer_segments_can_complete_a_file() {
    let (mut task, _) = DownloadTask::begin(0, false);
    task.step(plan(32 * 1024 * 1024, false, true));
    task.step(DownloadEvent::SegmentsFailed { error: error("part") });
    let step = task.step(DownloadEvent::SegmentsDone);
    assert!(matches!(step.next, DownloadNext::Check));
    let step = task.step(DownloadEvent::Intact);
    assert!(matches!(step.next, DownloadNext::Complete));
}

#[test]
fn an_ignored_range_restarts_the_file() {
    let (mut task, _) = DownloadTask::begin(40, false);
    let step = task.step(plan(100, true, false));
    assert_eq!(step.set_current, Some(0));
    assert!(matches!(step.next, DownloadNext::Receive { from: 0 }));
}

#[test]
fn a_broken_transfer_goes_on_where_it_stopped() {
    let (mut task, _) = DownloadTask::begin(0, false);
    task.step(plan(100, false, false));
    let step = task.step(DownloadEvent::BrokenOff {
        error: error("cut"),
        cancelled: false,
        file_length: 60,
    });
    assert_eq!(step.note, SourceNote::Failed { kind: SourceFailureKind::Transfer });
    assert_eq!((step.set_current, step.delay_ms), (Some(60), 500));
    assert!(matches!(step.next, DownloadNext::Ask { from: 60, recover: false }));
    task.step(plan(40, false, false));
    let step = task.step(DownloadEvent::Received { file_length: 99 });
    assert_eq!(step.delay_ms, 1000);
    assert!(matches!(step.next, DownloadNext::Ask { from: 99, recover: false }));
}

#[test]
fn a_cancelled_transfer_stops() {
    let (mut task, _) = DownloadTask::begin(0, false);
    task.step(plan(100, false, false));
    let step = task.step(DownloadEvent::BrokenOff {
        error: error("Download cancelled"),
        cancelled: true,
        file_length: 3,
    });
    assert!(matches!(step.next, DownloadNext::Stop));
}

#[test]
fn a_stale_position_is_given_up() {
    let (mut task, _) = DownloadTask::begin(70, false);
    let step = task.step(DownloadEvent::NotOpened { error: error("HTTP 416") });
    assert_eq!(step.note, SourceNote::Recover);
    assert!(step.remove_file);
    assert_eq!((step.set_current, step.delay_ms), (Some(0), 500));
    assert!(matches!(step.next, DownloadNext::Ask { from: 0, recover: false }));
}

#[test]
fn recovery_follows_four_failures_and_three_more_end_it() {
    let (mut task, _) = DownloadTask::begin(70, false);
    for attempt in 0..6 {
        let step = task.step(DownloadEvent::NotOpened { error: error("down") });
        match step.next {
            DownloadNext::Ask { from, recover } => {
                assert_eq!(recover, attempt == 3);
                assert_eq!(from, if attempt < 3 { 70 } else { 0 });
            }
            other => panic!("{:?}", other),
        }
    }
    let step = task.step(DownloadEvent::NotOpened { error: error("still down") });
    match step.next {
        DownloadNext::Fail { error } => assert_eq!(error.0, "still down"),
        other => panic!("{:?}", other),
    }
}

#[test]
fn the_last_error_is_told() {
    let (mut task, _) = DownloadTask::begin(0, false);
    for _ in 0..6 {
        task.step(DownloadEvent::NotOpened { error: error("down") });
    }
    task.step(plan(10, false, false));
    let step = task.step(DownloadEvent::Received { file_length: 4 });
    assert_eq!(step.delay_ms, 0);
    match step.next {
        DownloadNext::Fail { error } => {
            assert_eq!(error.0, "Download ended early: expected 10, got 4")
        }
        other => panic!("{:?}", other),
    }
}

#[test]
fn an_unknown_length_is_no_reason_to_reject_a_file() {
    let (mut task, _) = DownloadTask::begin(0, false);
    task.step(plan(-1, false, false));
    let step = task.step(DownloadEvent::Received { file_length: 4 });
    assert!(matches!(step.next, DownloadNext::Check));
    let step = task.step(DownloadEvent::Damaged { error: error("sha1"), file_length: 4 });
    assert_eq!(step.note, SourceNote::Failed { kind: SourceFailureKind::Integrity });
    assert!(matches!(step.next, DownloadNext::Ask { from: 4, recover: false }));
}

#[test]
fn reading_waits_for_stopped_tasks_and_ends_with_cancelled_ones() {
    assert_eq!(read_gate(false, false, false), ReadGate::Read);
    assert_eq!(read_gate(false, false, true), ReadGate::Wait);
    assert_eq!(read_gate(true, false, true), ReadGate::Cancelled);
    assert_eq!(read_gate(false, true, false), ReadGate::Cancelled);
    assert_eq!(cancelled_error().0, "Download cancelled");
    assert_eq!(silent_source_error(false).0, "Download source produced no data for 10s");
    assert_eq!(silent_source_error(true).0, "Download source produced no data for 60s");
    assert!(cleans_up(true, false) && cleans_up(false, true) && !cleans_up(false, false));
}

#[test]
fn every_byte_is_reported_once() {
    let quarter = 250_000_000u128;
    let mut meter = TransferMeter::begin(10);
    assert_eq!(meter.receive(5, 10), None);
    assert_eq!(meter.receive(7, 10 + quarter), Some(12));
    assert_eq!(meter.receive(3, 11 + quarter), None);
    let (left, report) = meter.finish(20 + quarter);
    assert_eq!(left, Some(3));
    assert_eq!((report.bytes, report.elapsed_nanos), (15, 10 + quarter));
    let mut empty = TransferMeter::begin(10);
    let (left, report) = empty.finish(4);
    assert_eq!(left, None);
    assert_eq!((report.bytes, report.elapsed_nanos), (0, 0));
}
