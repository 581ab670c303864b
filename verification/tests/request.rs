//! One request for a file.
use bgumcl::download::request::{
    cooldown_wait, finish_candidate_attempt, gate_wait, judge_reply, prepare_request, range_header,
    read_stream_plan, RaceAction, RaceEvent, RequestRace, SourceReply, StreamPlan,
};
use bgumcl::download::source::{FileSourceTracker, SourceFailureKind};

fn text(s: &str) -> Option<String> {
    Some(s.to_string())
}

#[test]
fn ranges_are_asked_for_only_where_something_is_there() {
    assert_eq!(range_header(0, None), None);
    assert_eq!(range_header(7, None), text("bytes=7-"));
    assert_eq!(range_header(0, Some(9)), text("bytes=0-9"));
    assert_eq!(range_header(5, Some(9)), text("bytes=5-9"));
}

#[test]
fn requests_to_bmclapi_wait_their_turn() {
    let plan = prepare_request("https://bmclapi2.bangbang93.com/a", 3, None).unwrap();
    assert!(plan.gated);
    assert_eq!(plan.range, text("bytes=3-"));
    let plan = prepare_request("https://example.org/a", 0, None).unwrap();
    assert!(!plan.gated);
    assert_eq!(gate_wait(0), 100_000_000);
    assert_eq!(gate_wait(40_000_000), 60_000_000);
    assert_eq!(gate_wait(100_000_000), 0);
    assert_eq!(cooldown_wait(7), 7);
    assert_eq!(cooldown_wait(9_000_000_000), 5_000_000_000);
}

#[test]
fn an_address_that_is_none_fails_without_being_asked() {
    let (kind, message) = prepare_request("nowhere", 0, None).unwrap_err();
    assert_eq!(kind, SourceFailureKind::Connection);
    assert_eq!(message, "Invalid url nowhere: relative URL without a base");
}

#[test]
fn replies_are_judged_by_their_status() {
    let status = |code: u16, shown: &str| SourceReply::Status { code, shown: shown.to_string() };
    assert!(judge_reply("u", 0, None, &status(200, "200 OK")).is_ok());
    assert!(judge_reply("u", 0, Some(9), &status(206, "206 Partial Content")).is_ok());
    assert_eq!(
        judge_reply("u", 0, None, &status(404, "404 Not Found")),
        Err((
            SourceFailureKind::Http,
            "HTTP request rejected for u: status 404 Not Found".to_string()
        ))
    );
    assert_eq!(
        judge_reply("u", 0, None, &status(429, "429 Too Many Requests")).unwrap_err().0,
        SourceFailureKind::RateLimited
    );
    assert_eq!(
        judge_reply("u", 3, Some(9), &status(200, "200 OK")),
        Err((
            SourceFailureKind::Range,
            "u ignored byte range 3-9 (status 200 OK)".to_string()
        ))
    );
    assert_eq!(
        judge_reply("u", 0, None, &SourceReply::Failed { error: "reset".to_string() }),
        Err((SourceFailureKind::Connection, "HTTP request failed for u: reset".to_string()))
    );
    assert_eq!(
        judge_reply("u", 0, None, &SourceReply::TimedOut),
        Err((SourceFailureKind::Timeout, "u did not respond within 10s".to_string()))
    );
}

#[test]
fn attempts_are_noted() {
    let mut tracker = FileSourceTracker::new(vec!["a".to_string(), "b".to_string()]);
    assert_eq!(finish_candidate_attempt(&mut tracker, "b", 5, Ok(()), 0), Ok(()));
    assert_eq!(tracker.ordered_candidates_at(0, 0), vec!["b", "a"]);
    let failed = Err((SourceFailureKind::Http, "bad".to_string()));
    assert_eq!(
        finish_candidate_attempt(&mut tracker, "b", 5, failed, 0),
        Err("bad".to_string())
    );
    assert_eq!(tracker.ordered_candidates_at(0, 0), vec!["a"]);
}

fn sources(names: &[&str]) -> Vec<String> {
    names.iter().map(|s| s.to_string()).collect()
}

fn asks(action: &RaceAction, name: &str, hedged: bool) -> bool {
    matches!(action, RaceAction::Ask { candidate, hedge } if candidate == name && *hedge == hedged)
}

fn uses(action: &RaceAction, name: &str) -> bool {
    matches!(action, RaceAction::Use { candidate } if candidate == name)
}

#[test]
fn a_round_without_sources_fails_at_once() {
    let error = RequestRace::begin(Vec::new()).unwrap_err();
    assert_eq!(error.0, "No download candidate is available");
}

#[test]
fn sources_are_asked_one_after_the_other() {
    let (mut race, action) = RequestRace::begin(sources(&["a", "b"])).unwrap();
    assert!(asks(&action, "a", true));
    let action = race.step(RaceEvent::Primary { outcome: Err("a failed".to_string()) });
    assert!(asks(&action, "b", false));
    let action = race.step(RaceEvent::Primary { outcome: Err("b failed".to_string()) });
    match action {
        RaceAction::Fail { error } => assert_eq!(error.0, "b failed"),
        other => panic!("{:?}", other),
    }
}

#[test]
fn a_silent_source_races_its_backup() {
    let (mut race, _) = RequestRace::begin(sources(&["a", "b", "c"])).unwrap();
    let action = race.step(RaceEvent::Silent { permit: true });
    assert!(matches!(&action, RaceAction::AskBackup { candidate } if candidate == "b"));
    let action = race.step(RaceEvent::Backup { outcome: Ok(()) });
    assert!(uses(&action, "b"));

    let (mut race, _) = RequestRace::begin(sources(&["a", "b", "c"])).unwrap();
    race.step(RaceEvent::Silent { permit: true });
    let action = race.step(RaceEvent::Backup { outcome: Err("b failed".to_string()) });
    assert!(matches!(action, RaceAction::Wait));
    let action = race.step(RaceEvent::Primary { outcome: Err("a failed".to_string()) });
    assert!(asks(&action, "c", false));
    let action = race.step(RaceEvent::Primary { outcome: Ok(()) });
    assert!(uses(&action, "c"));
}

#[test]
fn a_failed_primary_leaves_the_backup_to_answer() {
    let (mut race, _) = RequestRace::begin(sources(&["a", "b"])).unwrap();
    race.step(RaceEvent::Silent { permit: true });
    assert!(matches!(
        race.step(RaceEvent::Primary { outcome: Err("a failed".to_string()) }),
        RaceAction::Wait
    ));
    match race.step(RaceEvent::Backup { outcome: Err("b failed".to_string()) }) {
        RaceAction::Fail { error } => assert_eq!(error.0, "b failed"),
        other => panic!("{:?}", other),
    }
}

#[test]
fn without_a_permit_the_silent_source_is_waited_for() {
    let (mut race, _) = RequestRace::begin(sources(&["a", "b"])).unwrap();
    assert!(matches!(race.step(RaceEvent::Silent { permit: false }), RaceAction::Wait));
    let action = race.step(RaceEvent::Primary { outcome: Ok(()) });
    assert!(uses(&action, "a"));
}

#[test]
fn answers_promise_what_is_left() {
    let plan = read_stream_plan(0, 200, &None, Some(10), &text("Bytes")).unwrap();
    assert_eq!(
        plan,
        StreamPlan { total_progress: 10, restart_from_zero: false, supports_ranges: true }
    );
    let plan = read_stream_plan(0, 200, &None, None, &text("none")).unwrap();
    assert_eq!(
        plan,
        StreamPlan { total_progress: -1, restart_from_zero: false, supports_ranges: false }
    );
    let plan = read_stream_plan(4, 206, &text("bytes 4-9/10"), None, &None).unwrap();
    assert_eq!(
        plan,
        StreamPlan { total_progress: 6, restart_from_zero: false, supports_ranges: true }
    );
    let plan = read_stream_plan(4, 200, &text("garbage"), Some(10), &None).unwrap();
    assert_eq!(
        plan,
        StreamPlan { total_progress: 10, restart_from_zero: true, supports_ranges: false }
    );
}

#[test]
fn resumed_answers_must_go_on_where_the_file_stops() {
    let error = |range: Option<String>| read_stream_plan(4, 206, &range, None, &None).unwrap_err().0;
    assert_eq!(error(None), "Resumed response omitted Content-Range");
    assert_eq!(error(text("4-9/10")), "Invalid resumed Content-Range");
    assert_eq!(error(text("bytes 4-9")), "Invalid resumed Content-Range");
    assert_eq!(error(text("bytes 49/10")), "Invalid resumed byte range");
    assert_eq!(error(text("bytes x-9/10")), "Invalid resumed range start");
    assert_eq!(error(text("bytes 4-9/x")), "Invalid resumed range total");
    assert_eq!(
        error(text("bytes 3-9/10")),
        "Resumed response starts at 3, expected 4, total 10"
    );
    assert_eq!(
        error(text("bytes 4-9/2")),
        "Resumed response starts at 4, expected 4, total 2"
    );
}
