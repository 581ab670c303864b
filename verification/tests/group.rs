//! The connections that the files of a task group share.
use bgumcl::download::group::{DownloadGroupState, SpeedSample};

const SECOND: u128 = 1_000_000_000;

#[test]
fn group_stream_guard_tracks_live_connections() {
    let mut group = DownloadGroupState::new(4);
    {
        let guard = group.enter_stream();
        assert_eq!(group.active_connections(), 1);
        group.leave_stream(guard);
    }
    assert_eq!(group.active_connections(), 0);
}

#[test]
fn v2_stream_budget_starts_bounded_and_can_grow_to_requested_ceiling() {
    let automatic = DownloadGroupState::new(128);
    assert_eq!(automatic.target_connections(), 16);
    assert_eq!(automatic.max_connections(), 128);
    let manual = DownloadGroupState::new(12);
    assert_eq!(manual.target_connections(), 12);
    assert_eq!(manual.max_connections(), 12);
}

#[test]
fn limits_are_kept_between_one_and_128() {
    let none = DownloadGroupState::new(0);
    assert_eq!((none.max_connections(), none.target_connections()), (1, 1));
    let many = DownloadGroupState::new(1000);
    assert_eq!((many.max_connections(), many.target_connections()), (128, 16));
    let usual = DownloadGroupState::default();
    assert_eq!((usual.max_connections(), usual.target_connections()), (24, 16));
}

#[test]
fn cancelling_is_remembered() {
    let mut group = DownloadGroupState::new(4);
    assert!(!group.is_cancelled());
    group.cancel();
    assert!(group.is_cancelled());
}

#[test]
fn samples_are_due_after_their_intervals() {
    let mut group = DownloadGroupState::new(4);
    let early = group.record_bytes_at(100, SECOND / 2 - 1);
    assert_eq!((early.growth, early.sample), (None, None));
    let half = group.record_bytes_at(50, SECOND / 2);
    assert_eq!(half.growth, None);
    assert_eq!(half.sample, Some(SpeedSample { bytes: 150, elapsed_nanos: SECOND / 2 }));
    let two = group.record_bytes_at(850, 2 * SECOND);
    assert_eq!(two.growth, Some(SpeedSample { bytes: 1000, elapsed_nanos: 2 * SECOND }));
    assert_eq!(two.sample, Some(SpeedSample { bytes: 850, elapsed_nanos: 3 * SECOND / 2 }));
    let later = group.record_bytes_at(1, 3 * SECOND);
    assert_eq!(later.growth, None);
    assert_eq!(later.sample, Some(SpeedSample { bytes: 1, elapsed_nanos: SECOND }));
}

#[test]
fn totals_do_not_run_over() {
    let mut group = DownloadGroupState::new(4);
    group.record_bytes_at(i64::MAX, 0);
    let due = group.record_bytes_at(10, 2 * SECOND);
    assert_eq!(due.growth.unwrap().bytes, i64::MAX);
    let fallen = group.record_bytes_at(-5, 4 * SECOND);
    assert_eq!(fallen.growth.unwrap().bytes, 0);
}

#[test]
fn the_clock_of_a_group_runs() {
    let mut group = DownloadGroupState::new(4);
    let due = group.record_bytes(10);
    assert!(due.growth.is_none());
    assert_eq!(group.target_connections(), 4);
}

#[test]
fn groups_grow_in_steps_up_to_the_ceiling() {
    let mut group = DownloadGroupState::new(30);
    let sample = SpeedSample { bytes: 1, elapsed_nanos: SECOND };
    assert_eq!(group.grow(sample, true), 0);
    let mut guards = Vec::new();
    for _ in 0..12 {
        guards.push(group.enter_stream());
    }
    assert_eq!(group.grow(sample, false), 0);
    assert_eq!(group.grow(SpeedSample { bytes: 0, elapsed_nanos: SECOND }, true), 0);
    assert_eq!(group.grow(sample, true), 8);
    assert_eq!(group.target_connections(), 24);
    assert_eq!(group.grow(sample, true), 0);
    for _ in 0..8 {
        guards.push(group.enter_stream());
    }
    assert_eq!(group.grow(sample, true), 6);
    assert_eq!(group.target_connections(), 30);
    for _ in 0..10 {
        guards.push(group.enter_stream());
    }
    assert_eq!(group.grow(sample, true), 0);
}
