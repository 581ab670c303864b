//! One request for a file: what is sent to a source, what its answer amounts to, and how two
//! sources race when the first is slow.
use vstd::prelude::*;
use crate::download::segment::{header_of, stale_positions_are_told, tells_range_reset};
use crate::download::source::{FileSourceTracker, SourceFailureKind, SourceState};
use crate::error::{BGUMCLError, BGUMCLResult};
use crate::external::{parse_url, url_parsed, MAX_NANOS};
use crate::text::{
    concat2, concat3, concat4, contains, decimal, decimals_tell_their_number, has, holds, i64_value,
    is_digit, lower, opt_text, parse_i64, parted, parts_make_up_the_text, prefixes_are_taken_off,
    same_ignoring_case,
    signed_decimal, signed_decimal_text, split_once, strip_prefix, texts,
    texts_are_parted_at_the_first_mark, without_prefix, written_numbers_are_read,
};

verus! {

// ---------------------------------------------------------------------------------------------
// What is sent
// ---------------------------------------------------------------------------------------------
/// How long a source may take to answer, in milliseconds.
pub const SOURCE_RESPONSE_TIMEOUT_MS: u64 = 10_000;

/// After how long a second source is asked beside a silent first one, in milliseconds.
pub const HEDGED_REQUEST_DELAY_MS: u64 = 2_500;

/// The time between two requests to BMCLAPI, in nanoseconds.
pub const BMCLAPI_REQUEST_INTERVAL_NANOS: u128 = 100_000_000;

/// The longest wait for a resting source, in nanoseconds.
pub const MAX_COOLDOWN_WAIT_NANOS: u128 = 5_000_000_000;

/// The range that a request asks for.
pub open spec fn range_header_of(current: i64, range_end: Option<i64>) -> Option<Seq<char>> {
    match range_end {
        Some(end) => Some(
            "bytes="@ + signed_decimal(current as int) + "-"@ + signed_decimal(end as int),
        ),
        None => if current > 0 {
            Some("bytes="@ + signed_decimal(current as int) + "-"@)
        } else {
            None
        },
    }
}

/// The value of the `Range` header: from `current` to the end of a segment, or on to the end of
/// the file where part of it is there already; none for a whole file.
pub fn range_header(current: i64, range_end: Option<i64>) -> (r: Option<String>)
    ensures
        opt_text(r) == range_header_of(current, range_end),
{
    match range_end {
        Some(end) => {
            let from = signed_decimal_text(current);
            let to = signed_decimal_text(end);
            Some(concat4("bytes=", from.as_str(), "-", to.as_str()))
        },
        None => {
            if current > 0 {
                let from = signed_decimal_text(current);
                Some(concat3("bytes=", from.as_str(), "-"))
            } else {
                None
            }
        },
    }
}

/// A whole file is asked for without a range. The rest of one is asked for from where it stopped, and a
/// segment from its first missing byte to its last.
pub proof fn requests_ask_for_what_is_missing(current: i64, end: i64)
    ensures
        current <= 0 ==> range_header_of(current, None) is None,
        current > 0 ==> range_header_of(current, None) == Some(
            "bytes="@ + decimal(current as nat) + "-"@,
        ),
        0 <= current && 0 <= end ==> range_header_of(current, Some(end)) == Some(
            "bytes="@ + decimal(current as nat) + "-"@ + decimal(end as nat),
        ),
{
}

/// A source that is asked only so often.
pub open spec fn gated(candidate: Seq<char>) -> bool {
    contains(candidate, "bmclapi"@)
}

/// A request to send.
#[derive(Debug)]
pub struct RequestPlan {
    /// The value of the `Range` header.
    pub range: Option<String>,
    /// Whether the request waits its turn at BMCLAPI.
    pub gated: bool,
}

/// The message for a source whose address is none.
pub open spec fn invalid_url_message(candidate: Seq<char>, error: Seq<char>) -> Seq<char> {
    "Invalid url "@ + candidate + ": "@ + error
}

/// What to send to a source, or how it fails without being asked.
pub fn prepare_request(candidate: &str, current: i64, range_end: Option<i64>) -> (r: Result<
    RequestPlan,
    (SourceFailureKind, String),
>)
    ensures
        match url_parsed(candidate@) {
            Ok(_) => r matches Ok(plan) && opt_text(plan.range) == range_header_of(
                current,
                range_end,
            ) && plan.gated == gated(candidate@),
            Err(error) => r matches Err((kind, message)) && kind == SourceFailureKind::Connection
                && message@ == invalid_url_message(candidate@, error),
        },
{
    match parse_url(candidate) {
        Ok(_) => Ok(
            RequestPlan {
                range: range_header(current, range_end),
                gated: has(candidate, "bmclapi"),
            },
        ),
        Err(error) => Err(
            (
                SourceFailureKind::Connection,
                concat4("Invalid url ", candidate, ": ", error.as_str()),
            ),
        ),
    }
}

/// How long a gated request waits, given the time since the last one.
pub fn gate_wait(since_last_nanos: u128) -> (r: u128)
    ensures
        r == (if since_last_nanos < BMCLAPI_REQUEST_INTERVAL_NANOS {
            BMCLAPI_REQUEST_INTERVAL_NANOS - since_last_nanos
        } else {
            0
        }),
{
    if since_last_nanos < BMCLAPI_REQUEST_INTERVAL_NANOS {
        BMCLAPI_REQUEST_INTERVAL_NANOS - since_last_nanos
    } else {
        0
    }
}

/// How long to wait before the first source is asked, given what is left of its rest: at most
/// five seconds.
pub fn cooldown_wait(remaining_nanos: u128) -> (r: u128)
    ensures
        r == (if remaining_nanos < MAX_COOLDOWN_WAIT_NANOS {
            remaining_nanos
        } else {
            MAX_COOLDOWN_WAIT_NANOS
        }),
{
    if remaining_nanos < MAX_COOLDOWN_WAIT_NANOS {
        remaining_nanos
    } else {
        MAX_COOLDOWN_WAIT_NANOS
    }
}

// ---------------------------------------------------------------------------------------------
// What an answer amounts to
// ---------------------------------------------------------------------------------------------
/// What came back from a source.
#[derive(Debug)]
pub enum SourceReply {
    /// An answer: the number of its status and the status as it is shown.
    Status { code: u16, shown: String },
    /// No answer, with the text of the error.
    Failed { error: String },
    /// No answer in time.
    TimedOut,
}

/// A failed attempt: its kind and its message.
pub open spec fn failure_view(
    r: Result<(), (SourceFailureKind, String)>,
) -> Result<(), (SourceFailureKind, Seq<char>)> {
    match r {
        Ok(()) => Ok(()),
        Err((kind, message)) => Err((kind, message@)),
    }
}

/// What a reply amounts to: an answer with a status of success counts, unless a part was asked
/// for and something else than a part came.
pub open spec fn judged(
    candidate: Seq<char>,
    current: i64,
    range_end: Option<i64>,
    reply: SourceReply,
) -> Result<(), (SourceFailureKind, Seq<char>)> {
    match reply {
        SourceReply::Status { code, shown } => if !(200 <= code <= 299) {
            Err(
                (
                    if code == 429 {
                        SourceFailureKind::RateLimited
                    } else {
                        SourceFailureKind::Http
                    },
                    "HTTP request rejected for "@ + candidate + ": status "@ + shown@,
                ),
            )
        } else if range_end is Some && code != 206 {
            Err(
                (
                    SourceFailureKind::Range,
                    candidate + " ignored byte range "@ + signed_decimal(current as int) + "-"@
                        + signed_decimal(range_end->0 as int) + " (status "@ + shown@ + ")"@,
                ),
            )
        } else {
            Ok(())
        },
        SourceReply::Failed { error } => Err(
            (
                SourceFailureKind::Connection,
                "HTTP request failed for "@ + candidate + ": "@ + error@,
            ),
        ),
        SourceReply::TimedOut => Err(
            (SourceFailureKind::Timeout, candidate + " did not respond within 10s"@),
        ),
    }
}

/// What a reply amounts to.
pub fn judge_reply(
    candidate: &str,
    current: i64,
    range_end: Option<i64>,
    reply: &SourceReply,
) -> (r: Result<(), (SourceFailureKind, String)>)
    ensures
        failure_view(r) == judged(candidate@, current, range_end, *reply),
{
    match reply {
        SourceReply::Status { code, shown } => {
            let code = *code;
            if !(200 <= code && code <= 299) {
                let kind = if code == 429 {
                    SourceFailureKind::RateLimited
                } else {
                    SourceFailureKind::Http
                };
                return Err(
                    (
                        kind,
                        concat4(
                            "HTTP request rejected for ",
                            candidate,
                            ": status ",
                            shown.as_str(),
                        ),
                    ),
                );
            }
            if let Some(end) = range_end {
                if code != 206 {
                    let from = signed_decimal_text(current);
                    let to = signed_decimal_text(end);
                    let mut message = concat4(candidate, " ignored byte range ", from.as_str(), "-");
                    message.append(to.as_str());
                    message.append(" (status ");
                    message.append(shown.as_str());
                    message.append(")");
                    return Err((SourceFailureKind::Range, message));
                }
            }
            Ok(())
        },
        SourceReply::Failed { error } => Err(
            (
                SourceFailureKind::Connection,
                concat4("HTTP request failed for ", candidate, ": ", error.as_str()),
            ),
        ),
        SourceReply::TimedOut => Err(
            (SourceFailureKind::Timeout, concat2(candidate, " did not respond within 10s")),
        ),
    }
}

/// A reply counts exactly where its status is one of success, and is that of a part where a part was
/// asked for. Every other reply is a failure of its kind, and its message names the source.
pub proof fn replies_are_judged_by_their_status(
    candidate: Seq<char>,
    current: i64,
    range_end: Option<i64>,
    code: u16,
    shown: String,
    error: String,
)
    ensures
        ({
            let answer = judged(candidate, current, range_end, SourceReply::Status { code, shown });
            let success = 200 <= code < 300;
            &&& answer is Ok <==> success && (range_end is None || code == 206)
            &&& !success && code == 429 ==> (answer->Err_0).0 == SourceFailureKind::RateLimited
            &&& !success && code != 429 ==> (answer->Err_0).0 == SourceFailureKind::Http
            &&& success && range_end is Some && code != 206 ==> (answer->Err_0).0
                == SourceFailureKind::Range
            &&& !success ==> (answer->Err_0).1 == "HTTP request rejected for "@ + candidate
                + ": status "@ + shown@
            &&& judged(candidate, current, range_end, SourceReply::Failed { error }) == Err::<
                (),
                (SourceFailureKind, Seq<char>),
            >(
                (
                    SourceFailureKind::Connection,
                    "HTTP request failed for "@ + candidate + ": "@ + error@,
                ),
            )
            &&& judged(candidate, current, range_end, SourceReply::TimedOut) == Err::<
                (),
                (SourceFailureKind, Seq<char>),
            >((SourceFailureKind::Timeout, candidate + " did not respond within 10s"@))
        }),
{
}

/// A source that answers is preferred from then on and does not rest; one that fails rests for as long
/// as its kind of failure calls for. Nothing else is learned of the sources.
pub proof fn attempts_are_noted(
    state: SourceState,
    candidate: Seq<char>,
    latency: u128,
    kind: SourceFailureKind,
    message: Seq<char>,
    now: u128,
    other: Seq<char>,
)
    requires
        other != candidate,
    ensures
        ({
            let answered = after_attempt(state, candidate, latency, Ok(()), now);
            let failed = after_attempt(state, candidate, latency, Err((kind, message)), now);
            &&& answered.preferred == Some(candidate)
            &&& answered.health[candidate].cooldown_until is None
            &&& answered.health[candidate].latency_nanos == Some(latency)
            &&& failed.preferred != Some(candidate)
            &&& failed.health[candidate].cooldown_until is Some
            &&& answered.health[other] == state.health[other]
            &&& failed.health[other] == state.health[other]
            &&& answered.candidates == state.candidates && failed.candidates == state.candidates
        }),
{
}

/// What the tracker knows once an attempt has ended.
pub open spec fn after_attempt(
    state: SourceState,
    candidate: Seq<char>,
    latency: u128,
    result: Result<(), (SourceFailureKind, Seq<char>)>,
    now: u128,
) -> SourceState {
    match result {
        Ok(()) => state.after_response(candidate, latency),
        Err((kind, _)) => state.after_failure(candidate, kind, now),
    }
}

/// Notes how an attempt ended, and hands on its message if it failed.
pub fn finish_candidate_attempt(
    tracker: &mut FileSourceTracker,
    candidate: &str,
    latency_nanos: u128,
    result: Result<(), (SourceFailureKind, String)>,
    now: u128,
) -> (r: Result<(), String>)
    requires
        now <= MAX_NANOS,
    ensures
        final(tracker)@ == after_attempt(
            old(tracker)@,
            candidate@,
            latency_nanos,
            failure_view(result),
            now,
        ),
        match result {
            Ok(()) => r is Ok,
            Err((_, message)) => r matches Err(m) && m@ == message@,
        },
{
    match result {
        Ok(()) => {
            tracker.record_response(candidate, latency_nanos);
            Ok(())
        },
        Err((kind, message)) => {
            tracker.record_failure_at(candidate, kind, now);
            Err(message)
        },
    }
}

// ---------------------------------------------------------------------------------------------
// Asking the sources
// ---------------------------------------------------------------------------------------------
/// Where a round of requests stands.
#[derive(Clone, Copy, Debug, PartialEq, Eq, Structural)]
pub enum RacePhase {
    /// The source at the index was asked; a second one may be asked if it stays silent.
    Primary,
    /// The source at the index was asked, and nothing but its answer is awaited.
    PrimaryOnly,
    /// The sources at the index and behind it were both asked.
    Racing,
    /// Of the two, the one at the index failed.
    BackupLeft,
    /// Of the two, the one behind the index failed.
    PrimaryLeft,
    /// The round is over.
    Over,
}

/// What happened.
#[derive(Debug)]
pub enum RaceEvent {
    /// The source at the index answered, or failed with a message.
    Primary { outcome: Result<(), String> },
    /// The source behind the index answered, or failed with a message.
    Backup { outcome: Result<(), String> },
    /// The source at the index has been silent for too long; whether a second request may run.
    Silent { permit: bool },
}

/// What to do.
#[derive(Debug)]
pub enum RaceAction {
    /// Ask a source. If it is silent for too long and `hedge` is set, report that.
    Ask { candidate: String, hedge: bool },
    /// Ask a second source beside the first.
    AskBackup { candidate: String },
    /// Go on waiting for what was asked.
    Wait,
    /// The source answered: use its answer.
    Use { candidate: String },
    /// No source is left.
    Fail { error: BGUMCLError },
}

/// An event as texts.
pub enum RaceEventModel {
    Primary { outcome: Result<(), Seq<char>> },
    Backup { outcome: Result<(), Seq<char>> },
    Silent { permit: bool },
}

/// An action as texts.
pub enum RaceActionModel {
    Ask { candidate: Seq<char>, hedge: bool },
    AskBackup { candidate: Seq<char> },
    Wait,
    Use { candidate: Seq<char> },
    Fail { error: Seq<char> },
}

/// The outcome of a request as texts.
pub open spec fn outcome_view(outcome: Result<(), String>) -> Result<(), Seq<char>> {
    match outcome {
        Ok(()) => Ok(()),
        Err(message) => Err(message@),
    }
}

impl View for RaceEvent {
    type V = RaceEventModel;

    open spec fn view(&self) -> RaceEventModel {
        match *self {
            RaceEvent::Primary { outcome } => RaceEventModel::Primary {
                outcome: outcome_view(outcome),
            },
            RaceEvent::Backup { outcome } => RaceEventModel::Backup {
                outcome: outcome_view(outcome),
            },
            RaceEvent::Silent { permit } => RaceEventModel::Silent { permit },
        }
    }
}

impl View for RaceAction {
    type V = RaceActionModel;

    open spec fn view(&self) -> RaceActionModel {
        match *self {
            RaceAction::Ask { candidate, hedge } => RaceActionModel::Ask {
                candidate: candidate@,
                hedge,
            },
            RaceAction::AskBackup { candidate } => RaceActionModel::AskBackup {
                candidate: candidate@,
            },
            RaceAction::Wait => RaceActionModel::Wait,
            RaceAction::Use { candidate } => RaceActionModel::Use { candidate: candidate@ },
            RaceAction::Fail { error } => RaceActionModel::Fail { error: error@ },
        }
    }
}

/// A round of requests: the sources in order, how far it has come, and the last message.
pub struct RaceModel {
    pub candidates: Seq<Seq<char>>,
    pub index: int,
    pub phase: RacePhase,
    pub last_error: Option<Seq<char>>,
}

impl RaceModel {
    /// The round stands at one of its sources, with a second one behind it where two were or may
    /// be asked.
    pub open spec fn wf(self) -> bool {
        match self.phase {
            RacePhase::Over => 0 <= self.index <= self.candidates.len(),
            RacePhase::PrimaryOnly => 0 <= self.index < self.candidates.len(),
            _ => 0 <= self.index && self.index + 1 < self.candidates.len(),
        }
    }

    /// An event that can happen where the round stands.
    pub open spec fn expects(self, event: RaceEventModel) -> bool {
        match self.phase {
            RacePhase::Primary => event is Primary || event is Silent,
            RacePhase::PrimaryOnly => event is Primary,
            RacePhase::Racing => event is Primary || event is Backup,
            RacePhase::BackupLeft => event is Backup,
            RacePhase::PrimaryLeft => event is Primary,
            RacePhase::Over => false,
        }
    }

    /// The round before it begins.
    pub open spec fn begun(candidates: Seq<Seq<char>>) -> RaceModel {
        RaceModel { candidates, index: 0, phase: RacePhase::Over, last_error: None }
    }

    /// The round at the source `index`, and what to do there: ask it, alone if it is the last;
    /// fail if there is none.
    pub open spec fn at(self, index: int, last_error: Option<Seq<char>>) -> (RaceModel, RaceActionModel) {
        if index >= self.candidates.len() {
            (
                RaceModel {
                    index: self.candidates.len() as int,
                    phase: RacePhase::Over,
                    last_error,
                    ..self
                },
                RaceActionModel::Fail {
                    error: match last_error {
                        Some(message) => message,
                        None => "All download candidates failed"@,
                    },
                },
            )
        } else {
            let hedge = index + 1 < self.candidates.len();
            (
                RaceModel {
                    index,
                    phase: if hedge {
                        RacePhase::Primary
                    } else {
                        RacePhase::PrimaryOnly
                    },
                    last_error,
                    ..self
                },
                RaceActionModel::Ask { candidate: self.candidates[index], hedge },
            )
        }
    }

    /// The round over, with the answer of a source.
    pub open spec fn won(self, index: int) -> (RaceModel, RaceActionModel) {
        (
            RaceModel { phase: RacePhase::Over, ..self },
            RaceActionModel::Use { candidate: self.candidates[index] },
        )
    }

    /// How the round goes on after an event.
    pub open spec fn next(self, event: RaceEventModel) -> (RaceModel, RaceActionModel) {
        match event {
            RaceEventModel::Silent { permit } => if permit {
                (
                    RaceModel { phase: RacePhase::Racing, ..self },
                    RaceActionModel::AskBackup { candidate: self.candidates[self.index + 1] },
                )
            } else {
                (RaceModel { phase: RacePhase::PrimaryOnly, ..self }, RaceActionModel::Wait)
            },
            RaceEventModel::Primary { outcome } => match outcome {
                Ok(()) => self.won(self.index),
                Err(message) => match self.phase {
                    RacePhase::Racing => (
                        RaceModel { phase: RacePhase::BackupLeft, ..self },
                        RaceActionModel::Wait,
                    ),
                    RacePhase::PrimaryLeft => self.at(self.index + 2, Some(message)),
                    _ => self.at(self.index + 1, Some(message)),
                },
            },
            RaceEventModel::Backup { outcome } => match outcome {
                Ok(()) => self.won(self.index + 1),
                Err(message) => match self.phase {
                    RacePhase::Racing => (
                        RaceModel { phase: RacePhase::PrimaryLeft, ..self },
                        RaceActionModel::Wait,
                    ),
                    _ => self.at(self.index + 2, Some(message)),
                },
            },
        }
    }

    /// How many events the round can still take at most.
    pub open spec fn events_left(self) -> int {
        let left = 3 * (self.candidates.len() - self.index);
        match self.phase {
            RacePhase::Over => 0,
            RacePhase::Primary => left,
            RacePhase::Racing => left - 1,
            RacePhase::PrimaryOnly => left - 1,
            RacePhase::BackupLeft => left - 2,
            RacePhase::PrimaryLeft => left - 2,
        }
    }

    /// Through which source the round has asked so far: that many sources from the front.
    pub open spec fn asked(self) -> int {
        match self.phase {
            RacePhase::Over => self.index,
            RacePhase::Primary => self.index + 1,
            RacePhase::PrimaryOnly => self.index + 1,
            _ => self.index + 2,
        }
    }
}

/// Every event takes the round a step on: it stays well formed, and it can only take so many.
pub proof fn rounds_come_to_an_end(s: RaceModel, event: RaceEventModel)
    requires
        s.wf(),
        s.expects(event),
    ensures
        s.next(event).0.wf(),
        0 <= s.next(event).0.events_left() < s.events_left(),
        s.next(event).0.phase == RacePhase::Over <==> s.next(event).1 is Use || s.next(event).1 is Fail,
{
}

/// As soon as a source answers, the round is over with its answer.
pub proof fn first_answer_wins(s: RaceModel, event: RaceEventModel)
    requires
        s.wf(),
        s.expects(event),
        event matches RaceEventModel::Primary { outcome } ==> outcome is Ok,
        event matches RaceEventModel::Backup { outcome } ==> outcome is Ok,
        !(event is Silent),
    ensures
        s.next(event).0.phase == RacePhase::Over,
        s.next(event).1 == (RaceActionModel::Use {
            candidate: s.candidates[if event is Primary {
                s.index
            } else {
                s.index + 1
            }],
        }),
{
}

/// Sources are asked in order, each once: what is asked next is the first one not yet asked.
pub proof fn sources_are_asked_in_order(s: RaceModel, event: RaceEventModel)
    requires
        s.wf(),
        s.expects(event),
    ensures
        s.next(event).0.candidates == s.candidates,
        s.next(event).1 matches RaceActionModel::Ask { candidate, .. } ==> s.asked()
            < s.candidates.len() && candidate == s.candidates[s.asked()] && s.next(event).0.asked()
            == s.asked() + 1,
        s.next(event).1 matches RaceActionModel::AskBackup { candidate } ==> s.asked()
            < s.candidates.len() && candidate == s.candidates[s.asked()] && s.next(event).0.asked()
            == s.asked() + 1,
        s.next(event).1 is Wait ==> s.next(event).0.asked() == s.asked(),
{
}

/// The round fails only when every source was asked and none is awaited, with the message of the
/// failure that came last.
pub proof fn rounds_fail_only_when_every_source_failed(s: RaceModel, event: RaceEventModel)
    requires
        s.wf(),
        s.expects(event),
        s.next(event).1 is Fail,
    ensures
        s.asked() == s.candidates.len(),
        s.phase != RacePhase::Racing,
        match event {
            RaceEventModel::Primary { outcome } => outcome matches Err(message) && s.next(event).1
                == (RaceActionModel::Fail { error: message }),
            RaceEventModel::Backup { outcome } => outcome matches Err(message) && s.next(event).1
                == (RaceActionModel::Fail { error: message }),
            RaceEventModel::Silent { .. } => false,
        },
{
}

/// A round begins with its first source. A second one may be asked beside it only where there is one,
/// and is asked exactly where the first is silent and a second request may run.
pub proof fn silent_sources_get_company(candidates: Seq<Seq<char>>, s: RaceModel, permit: bool)
    requires
        candidates.len() > 0,
        s.wf(),
        s.phase == RacePhase::Primary,
    ensures
        ({
            let (begun, first) = RaceModel::begun(candidates).at(0, None);
            let (after, action) = s.next(RaceEventModel::Silent { permit });
            &&& first == (RaceActionModel::Ask {
                candidate: candidates[0],
                hedge: candidates.len() > 1,
            })
            &&& begun.candidates == candidates && begun.index == 0
            &&& begun.phase == RacePhase::Primary <==> candidates.len() > 1
            &&& permit ==> action == (RaceActionModel::AskBackup {
                candidate: s.candidates[s.index + 1],
            }) && after.phase == RacePhase::Racing
            &&& !permit ==> action is Wait && after.phase == RacePhase::PrimaryOnly
        }),
{
}

/// While another source is awaited, a failure changes nothing but who is awaited. The failure of the
/// only source that is awaited makes the next one be asked, alone if it is the last, or the round
/// fail with its message if there is none.
pub proof fn failures_move_on_to_the_next_source(s: RaceModel, message: Seq<char>)
    requires
        s.wf(),
        s.phase != RacePhase::Over,
    ensures
        ({
            let (a, primary) = s.next(RaceEventModel::Primary { outcome: Err(message) });
            let (b, backup) = s.next(RaceEventModel::Backup { outcome: Err(message) });
            let alone = s.phase == RacePhase::Primary || s.phase == RacePhase::PrimaryOnly;
            let next = if alone {
                s.index + 1
            } else {
                s.index + 2
            };
            let (after, action) = if s.phase == RacePhase::BackupLeft {
                (b, backup)
            } else {
                (a, primary)
            };
            &&& s.phase == RacePhase::Racing ==> primary is Wait && a.phase == RacePhase::BackupLeft
                && backup is Wait && b.phase == RacePhase::PrimaryLeft && a.index == s.index && b.index
                == s.index
            &&& s.phase != RacePhase::Racing && next < s.candidates.len() ==> action == (
            RaceActionModel::Ask {
                candidate: s.candidates[next],
                hedge: next + 1 < s.candidates.len(),
            }) && after.index == next && after.last_error == Some(message)
            &&& s.phase != RacePhase::Racing && next >= s.candidates.len() ==> action == (
            RaceActionModel::Fail { error: message })
        }),
{
}

/// A round of requests to the sources of a file.
#[derive(Debug)]
pub struct RequestRace {
    pub candidates: Vec<String>,
    pub index: usize,
    pub phase: RacePhase,
    pub last_error: Option<String>,
}

impl View for RequestRace {
    type V = RaceModel;

    open spec fn view(&self) -> RaceModel {
        RaceModel {
            candidates: texts(self.candidates@),
            index: self.index as int,
            phase: self.phase,
            last_error: opt_text(self.last_error),
        }
    }
}

impl RequestRace {
    /// Begins a round. It fails at once if there is no source.
    pub fn begin(candidates: Vec<String>) -> (r: Result<(RequestRace, RaceAction), BGUMCLError>)
        ensures
            candidates@.len() == 0 ==> (r matches Err(error) && error@
                == "No download candidate is available"@),
            candidates@.len() > 0 ==> (r matches Ok((race, action)) && race@.wf() && (
                race@,
                action@,
            ) == RaceModel::begun(texts(candidates@)).at(0, None)),
    {
        if candidates.len() == 0 {
            return Err(BGUMCLError::new("No download candidate is available"));
        }
        let first = candidates[0].clone();
        let hedge = candidates.len() > 1;
        assert(texts(candidates@)[0] == candidates@[0]@);
        let race = RequestRace {
            candidates,
            index: 0,
            phase: if hedge {
                RacePhase::Primary
            } else {
                RacePhase::PrimaryOnly
            },
            last_error: None,
        };
        Ok((race, RaceAction::Ask { candidate: first, hedge }))
    }

    fn go_to(&mut self, index: usize, error: String) -> (r: RaceAction)
        requires
            index <= old(self).candidates.len(),
        ensures
            (final(self)@, r@) == old(self)@.at(index as int, Some(error@)),
    {
        self.index = index;
        if index >= self.candidates.len() {
            self.phase = RacePhase::Over;
            let message = error.clone();
            self.last_error = Some(error);
            return RaceAction::Fail { error: BGUMCLError(message) };
        }
        self.last_error = Some(error);
        let hedge = self.candidates.len() - index > 1;
        self.phase = if hedge {
            RacePhase::Primary
        } else {
            RacePhase::PrimaryOnly
        };
        assert(texts(self.candidates@)[index as int] == self.candidates@[index as int]@);
        RaceAction::Ask { candidate: self.candidates[index].clone(), hedge }
    }

    /// Takes an event that can happen now, and says what to do.
    pub fn step(&mut self, event: RaceEvent) -> (r: RaceAction)
        requires
            old(self)@.wf(),
            old(self)@.expects(event@),
        ensures
            final(self)@.wf(),
            (final(self)@, r@) == old(self)@.next(event@),
    {
        let index = self.index;
        assert(self.candidates.len() <= usize::MAX);
        assert(texts(self.candidates@)[index as int] == self.candidates@[index as int]@);
        assert(self.phase != RacePhase::PrimaryOnly ==> texts(self.candidates@)[index + 1]
            == self.candidates@[index + 1]@);
        match event {
            RaceEvent::Silent { permit } => {
                if permit {
                    self.phase = RacePhase::Racing;
                    RaceAction::AskBackup { candidate: self.candidates[index + 1].clone() }
                } else {
                    self.phase = RacePhase::PrimaryOnly;
                    RaceAction::Wait
                }
            },
            RaceEvent::Primary { outcome } => match outcome {
                Ok(()) => {
                    self.phase = RacePhase::Over;
                    RaceAction::Use { candidate: self.candidates[index].clone() }
                },
                Err(message) => match self.phase {
                    RacePhase::Racing => {
                        self.phase = RacePhase::BackupLeft;
                        RaceAction::Wait
                    },
                    RacePhase::PrimaryLeft => self.go_to(index + 2, message),
                    _ => self.go_to(index + 1, message),
                },
            },
            RaceEvent::Backup { outcome } => match outcome {
                Ok(()) => {
                    self.phase = RacePhase::Over;
                    RaceAction::Use { candidate: self.candidates[index + 1].clone() }
                },
                Err(message) => match self.phase {
                    RacePhase::Racing => {
                        self.phase = RacePhase::PrimaryLeft;
                        RaceAction::Wait
                    },
                    _ => self.go_to(index + 2, message),
                },
            },
        }
    }
}

// ---------------------------------------------------------------------------------------------
// Reading an answer
// ---------------------------------------------------------------------------------------------
/// A length as a counter of 64 bits with a sign holds it.
pub open spec fn signed_length(length: u64) -> i64 {
    if length <= i64::MAX {
        length as i64
    } else {
        (length - 0x1_0000_0000_0000_0000) as i64
    }
}

fn to_signed(length: u64) -> (r: i64)
    ensures
        r == signed_length(length),
{
    if length <= 0x7fff_ffff_ffff_ffff {
        length as i64
    } else {
        (length as i128 - 0x1_0000_0000_0000_0000) as i64
    }
}

/// What the answer to a request for the rest of a file promises.
#[derive(Clone, Copy, Debug, PartialEq, Eq, Structural)]
pub struct StreamPlan {
    /// How many bytes will come; below zero if that is not known.
    pub total_progress: i64,
    /// Whether the whole file comes instead of its rest.
    pub restart_from_zero: bool,
    /// Whether the source can be asked for parts of the file.
    pub supports_ranges: bool,
}

/// The start and the total that a `Content-Range` header tells, or what is wrong with it.
pub open spec fn resumed_range(content_range: Option<Seq<char>>) -> Result<(int, int), Seq<char>> {
    match content_range {
        None => Err("Resumed response omitted Content-Range"@),
        Some(value) => match without_prefix(value, "bytes "@) {
            None => Err("Invalid resumed Content-Range"@),
            Some(rest) => match parted(rest, "/"@) {
                None => Err("Invalid resumed Content-Range"@),
                Some((range, total)) => match parted(range, "-"@) {
                    None => Err("Invalid resumed byte range"@),
                    Some((start, _)) => match i64_value(start) {
                        None => Err("Invalid resumed range start"@),
                        Some(start) => match i64_value(total) {
                            None => Err("Invalid resumed range total"@),
                            Some(total) => Ok((start, total)),
                        },
                    },
                },
            },
        },
    }
}

/// How many bytes of a resumed file are left to come, or what is wrong with the answer.
pub open spec fn resumed_progress(current: i64, content_range: Option<Seq<char>>) -> Result<
    int,
    Seq<char>,
> {
    match resumed_range(content_range) {
        Err(message) => Err(message),
        Ok((start, total)) => if start != current || total < current {
            Err(
                "Resumed response starts at "@ + signed_decimal(start) + ", expected "@
                    + signed_decimal(current as int) + ", total "@ + signed_decimal(total),
            )
        } else {
            Ok(total - current)
        },
    }
}

/// A header offers parts of files.
pub open spec fn offers_ranges(accept_ranges: Option<Seq<char>>) -> bool {
    accept_ranges matches Some(value) && lower(value) == lower("bytes"@)
}

fn parse_resumed_range(content_range: &Option<String>) -> (r: Result<(i64, i64), BGUMCLError>)
    ensures
        match r {
            Ok((start, total)) => resumed_range(opt_text(*content_range)) == Ok::<
                (int, int),
                Seq<char>,
            >((start as int, total as int)),
            Err(error) => resumed_range(opt_text(*content_range)) == Err::<
                (int, int),
                Seq<char>,
            >(error@),
        },
{
    let value = match content_range {
        Some(value) => value,
        None => {
            return Err(BGUMCLError::new("Resumed response omitted Content-Range"));
        },
    };
    let rest = match strip_prefix(value.as_str(), "bytes ") {
        Some(rest) => rest,
        None => {
            return Err(BGUMCLError::new("Invalid resumed Content-Range"));
        },
    };
    let (range, total) = match split_once(rest.as_str(), "/") {
        Some(pair) => pair,
        None => {
            return Err(BGUMCLError::new("Invalid resumed Content-Range"));
        },
    };
    let (start, _end) = match split_once(range.as_str(), "-") {
        Some(pair) => pair,
        None => {
            return Err(BGUMCLError::new("Invalid resumed byte range"));
        },
    };
    let start = match parse_i64(start.as_str()) {
        Some(start) => start,
        None => {
            return Err(BGUMCLError::new("Invalid resumed range start"));
        },
    };
    let total = match parse_i64(total.as_str()) {
        Some(total) => total,
        None => {
            return Err(BGUMCLError::new("Invalid resumed range total"));
        },
    };
    Ok((start, total))
}

/// What the answer to a request from `current` on promises, by its status and headers. An answer
/// that ignores the range asked for makes the download begin anew.
pub open spec fn stream_plan_of(
    current: i64,
    status: u16,
    content_range: Option<Seq<char>>,
    content_length: Option<u64>,
    accept_ranges: Option<Seq<char>>,
) -> Result<StreamPlan, Seq<char>> {
    let restart = current > 0 && status != 206;
    let supports = status == 206 || offers_ranges(accept_ranges);
    if current > 0 && !restart {
        match resumed_progress(current, content_range) {
            Ok(left) => Ok(
                StreamPlan {
                    total_progress: left as i64,
                    restart_from_zero: false,
                    supports_ranges: supports,
                },
            ),
            Err(message) => Err(message),
        }
    } else {
        Ok(
            StreamPlan {
                total_progress: match content_length {
                    Some(length) => signed_length(length),
                    None => -1i64,
                },
                restart_from_zero: restart,
                supports_ranges: supports,
            },
        )
    }
}

/// The result of reading an answer, with the message of the error.
pub open spec fn plan_result(r: BGUMCLResult<StreamPlan>) -> Result<StreamPlan, Seq<char>> {
    match r {
        Ok(plan) => Ok(plan),
        Err(error) => Err(error@),
    }
}

/// What the answer to a request from `current` on promises.
pub fn read_stream_plan(
    current: i64,
    status: u16,
    content_range: &Option<String>,
    content_length: Option<u64>,
    accept_ranges: &Option<String>,
) -> (r: BGUMCLResult<StreamPlan>)
    ensures
        plan_result(r) == stream_plan_of(
            current,
            status,
            opt_text(*content_range),
            content_length,
            opt_text(*accept_ranges),
        ),
{
    let restart_from_zero = current > 0 && status != 206;
    let offered = match accept_ranges {
        Some(value) => same_ignoring_case(value.as_str(), "bytes"),
        None => false,
    };
    let supports_ranges = status == 206 || offered;
    let total_progress: i64 = if current > 0 && !restart_from_zero {
        let (start, total) = match parse_resumed_range(content_range) {
            Ok(pair) => pair,
            Err(error) => {
                return Err(error);
            },
        };
        if start != current || total < current {
            let a = signed_decimal_text(start);
            let b = signed_decimal_text(current);
            let c = signed_decimal_text(total);
            let mut message = concat4(
                "Resumed response starts at ",
                a.as_str(),
                ", expected ",
                b.as_str(),
            );
            message.append(", total ");
            message.append(c.as_str());
            return Err(BGUMCLError(message));
        }
        total - current
    } else {
        match content_length {
            Some(length) => to_signed(length),
            None => -1,
        }
    };
    Ok(StreamPlan { total_progress, restart_from_zero, supports_ranges })
}

/// A resumed download goes on exactly where it stopped: what is left and what is there make up
/// the total that the source tells.
pub proof fn resuming_completes_the_total(
    current: i64,
    content_range: Option<Seq<char>>,
    content_length: Option<u64>,
    accept_ranges: Option<Seq<char>>,
)
    requires
        current > 0,
        stream_plan_of(current, 206, content_range, content_length, accept_ranges) is Ok,
    ensures
        ({
            let plan = stream_plan_of(current, 206, content_range, content_length, accept_ranges)->Ok_0;
            &&& !plan.restart_from_zero
            &&& plan.supports_ranges
            &&& plan.total_progress >= 0
            &&& resumed_range(content_range) == Ok::<(int, int), Seq<char>>(
                (current as int, current + plan.total_progress),
            )
        }),
{
    crate::text::i64_values_fit(content_range_total(content_range));
}

/// An answer with a part that begins where the download stopped promises what is left of the total
/// that its header names. One that begins elsewhere, or whose total is less than what is there, is
/// refused as stale.
pub proof fn resumed_answers_promise_what_is_left(
    current: i64,
    first: nat,
    last: nat,
    total: nat,
    content_length: Option<u64>,
    accept_ranges: Option<Seq<char>>,
)
    requires
        current > 0,
        first <= i64::MAX,
        total <= i64::MAX,
    ensures
        ({
            let header = "bytes "@ + decimal(first) + "-"@ + decimal(last) + "/"@ + decimal(total);
            let plan = stream_plan_of(current, 206, Some(header), content_length, accept_ranges);
            &&& plan is Ok <==> first == current && current <= total
            &&& plan matches Ok(plan) ==> plan.total_progress == total - current
                && !plan.restart_from_zero && plan.supports_ranges
            &&& plan matches Err(message) ==> tells_range_reset(message)
        }),
{
    reveal_strlit("/");
    reveal_strlit("-");
    let a = decimal(first);
    let b = decimal(last);
    let t = decimal(total);
    let range = a + "-"@ + b;
    let rest = range + "/"@ + t;
    decimals_tell_their_number(first);
    decimals_tell_their_number(last);
    written_numbers_are_read(first as int);
    written_numbers_are_read(total as int);
    let header = "bytes "@ + a + "-"@ + b + "/"@ + t;
    assert(header =~= "bytes "@ + rest);
    prefixes_are_taken_off(rest, "bytes "@);
    assert(!holds(range, '/')) by {
        if holds(range, '/') {
            let i = choose|i: int| 0 <= i < range.len() && #[trigger] range[i] == '/';
            if i < a.len() {
                assert(is_digit(a[i]));
            } else if i > a.len() {
                assert(is_digit(b[i - a.len() - 1]));
            }
        }
    }
    texts_are_parted_at_the_first_mark(range, "/"@, t);
    assert(!holds(a, '-')) by {
        if holds(a, '-') {
            let i = choose|i: int| 0 <= i < a.len() && #[trigger] a[i] == '-';
            assert(is_digit(a[i]));
        }
    }
    texts_are_parted_at_the_first_mark(a, "-"@, b);
    if let Err(message) = stream_plan_of(current, 206, Some(header), content_length, accept_ranges) {
        let back = " at "@ + decimal(first) + ", expected "@ + decimal(current as nat) + ", total "@
            + decimal(total);
        reveal_strlit("Resumed response starts at ");
        reveal_strlit("Resumed response starts");
        reveal_strlit(" at ");
        assert("Resumed response starts at "@ =~= "Resumed response starts"@ + " at "@);
        let none = Seq::<char>::empty();
        assert(message =~= none + "Resumed response starts"@ + back);
        stale_positions_are_told(none, back, message);
    }
}

/// The start and the total of a resumed answer are those of its header, which is written as a range; what
/// is missing in another header is told.
pub proof fn resumed_headers_are_written_as_ranges(header: Seq<char>)
    ensures
        resumed_range(None) == Err::<(int, int), Seq<char>>("Resumed response omitted Content-Range"@),
        resumed_range(Some(header)) matches Ok((start, total)) ==> exists|
            a: Seq<char>,
            b: Seq<char>,
            t: Seq<char>,
        | #[trigger]
            header_of(a, b, t) == header && i64_value(a) == Some(start) && i64_value(t) == Some(total),
        !"bytes "@.is_prefix_of(header) ==> resumed_range(Some(header)) == Err::<(int, int), Seq<char>>(
            "Invalid resumed Content-Range"@,
        ),
        !holds(header, '/') ==> resumed_range(Some(header)) == Err::<(int, int), Seq<char>>(
            "Invalid resumed Content-Range"@,
        ),
{
    reveal_strlit("/");
    prefixes_are_taken_off(header, "bytes "@);
    if let Some(rest) = without_prefix(header, "bytes "@) {
        parts_make_up_the_text(rest, "/"@);
        if !holds(header, '/') && holds(rest, '/') {
            let i = choose|i: int| 0 <= i < rest.len() && #[trigger] rest[i] == '/';
            assert(header["bytes "@.len() + i] == '/');
        }
        if let Ok(_) = resumed_range(Some(header)) {
            let (range, total) = parted(rest, "/"@)->0;
            let (a, b) = parted(range, "-"@)->0;
            parts_make_up_the_text(range, "-"@);
            assert(header_of(a, b, total) =~= header);
        }
    }
}

/// A source whose address is none is told with its address and what is wrong with it.
pub proof fn wrong_addresses_are_told(candidate: Seq<char>, error: Seq<char>)
    ensures
        invalid_url_message(candidate, error) == "Invalid url "@ + candidate + ": "@ + error,
{
}

/// An answer with the whole file promises as many bytes as it tells; none are promised where it tells no
/// length. The download begins anew exactly where a part was asked for. A source serves parts where
/// it answers with one or offers them, in whatever letters.
pub proof fn whole_answers_promise_their_length(
    current: i64,
    status: u16,
    content_range: Option<Seq<char>>,
    content_length: Option<u64>,
    accept_ranges: Option<Seq<char>>,
)
    requires
        current <= 0 || status != 206,
        content_length matches Some(n) ==> n <= i64::MAX,
    ensures
        stream_plan_of(current, status, content_range, content_length, accept_ranges) matches Ok(plan)
            && plan.restart_from_zero == (current > 0) && plan.supports_ranges == (status == 206 || (
        accept_ranges matches Some(value) && lower(value) == "bytes"@)) && (match content_length {
            Some(n) => plan.total_progress == n,
            None => plan.total_progress == -1,
        }),
{
    reveal_strlit("bytes");
    assert(lower("bytes"@) =~= "bytes"@);
}

/// The text of the total in a `Content-Range` header, if it comes that far.
spec fn content_range_total(content_range: Option<Seq<char>>) -> Seq<char> {
    match content_range {
        Some(value) => match without_prefix(value, "bytes "@) {
            Some(rest) => match parted(rest, "/"@) {
                Some((_, total)) => total,
                None => seq![],
            },
            None => seq![],
        },
        None => seq![],
    }
}

/// A source that answers a request for the rest of a file with the whole file makes the download
/// begin anew, whatever its headers say.
pub proof fn ignored_ranges_restart_the_download(
    current: i64,
    status: u16,
    content_range: Option<Seq<char>>,
    content_length: Option<u64>,
    accept_ranges: Option<Seq<char>>,
)
    requires
        current > 0,
        status != 206,
    ensures
        stream_plan_of(current, status, content_range, content_length, accept_ranges) matches Ok(
            plan,
        ) && plan.restart_from_zero,
{
}

} // verus!
