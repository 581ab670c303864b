//! The download of one file: its attempts, its recovery, and the account of its progress.
use vstd::prelude::*;
use crate::download::request::StreamPlan;
use crate::download::segment::{
    delay_after, is_range_reset_error, retry_delay, segment_count_for_size, segment_count_of,
    tells_range_reset, SourceNote, SEGMENT_DOWNLOAD_RETRIES,
};
use crate::download::source::{SourceFailureKind, TransferReport};
use crate::error::BGUMCLError;
use crate::text::{concat4, signed_decimal, signed_decimal_text};

verus! {

/// How many clean attempts follow when the ordinary ones have failed.
pub const RECOVERY_DOWNLOAD_ATTEMPTS: usize = 3;

/// How many attempts there are in all.
pub const TOTAL_DOWNLOAD_ATTEMPTS: usize = 7;

/// How long a source may be silent during a transfer, in seconds.
pub const DOWNLOAD_READ_TIMEOUT_SECS: u64 = 10;

/// How long it may be silent where the speed is limited, in seconds.
pub const LIMITED_DOWNLOAD_READ_TIMEOUT_SECS: u64 = 60;

// ---------------------------------------------------------------------------------------------
// Attempts
// ---------------------------------------------------------------------------------------------
/// Where a download stands.
#[derive(Clone, Copy, Debug, PartialEq, Eq, Structural)]
pub enum DownloadPhase {
    /// The file was asked for.
    Asked,
    /// Its `count` segments, of `total` bytes together, are being downloaded.
    Segments { total: i64, count: i64 },
    /// The file that was put together from segments is being checked.
    CheckingSegments,
    /// An answer is being written, from `from` on; `total` bytes are to come.
    Receiving { from: i64, total: i64 },
    /// The received file is being checked.
    Checking,
    /// It is over.
    Over,
}

/// What happened.
#[derive(Debug)]
pub enum DownloadEvent {
    /// A source answered.
    Opened { plan: StreamPlan },
    /// No source answered, or the answer was of no use.
    NotOpened { error: BGUMCLError },
    /// Every segment is complete and the file is put together.
    SegmentsDone,
    /// A segment failed.
    SegmentsFailed { error: BGUMCLError },
    /// The answer was written; the file has a length.
    Received { file_length: i64 },
    /// The transfer broke off; the file has a length. Whether the task was cancelled.
    BrokenOff { error: BGUMCLError, cancelled: bool, file_length: i64 },
    /// The file has the SHA-1 that it must have.
    Intact,
    /// It has not; the file has a length.
    Damaged { error: BGUMCLError, file_length: i64 },
}

/// What to do next.
#[derive(Debug)]
pub enum DownloadNext {
    /// Ask for the file from `from` on. Before the first clean attempt, have every failure of the
    /// sources forgotten, remove the file, and set the progress to zero.
    Ask { from: i64, recover: bool },
    /// Download the file, of `total` bytes, in `count` segments.
    Segments { total: i64, count: i64 },
    /// Write the answer to the file from `from` on; the file is emptied first where that is zero.
    Receive { from: i64 },
    /// Check the SHA-1 of the file.
    Check,
    /// The file is there: mark the task as completed.
    Complete,
    /// The task was cancelled: remove the file and stop.
    Stop,
    /// The download failed.
    Fail { error: BGUMCLError },
}

/// What to do after an event, in this order: what concerns the sources, the parts and the file,
/// the progress, the wait, then the next step.
#[derive(Debug)]
pub struct DownloadStep {
    pub note: SourceNote,
    pub remove_parts: bool,
    pub remove_file: bool,
    pub set_current: Option<i64>,
    pub set_total: Option<i64>,
    pub delay_ms: u64,
    pub next: DownloadNext,
}

/// What to do next, as texts.
pub enum DownloadNextModel {
    Ask { from: i64, recover: bool },
    Segments { total: i64, count: i64 },
    Receive { from: i64 },
    Check,
    Complete,
    Stop,
    Fail { error: Seq<char> },
}

/// A step as texts.
pub struct DownloadStepModel {
    pub note: SourceNote,
    pub remove_parts: bool,
    pub remove_file: bool,
    pub set_current: Option<i64>,
    pub set_total: Option<i64>,
    pub delay_ms: nat,
    pub next: DownloadNextModel,
}

impl View for DownloadNext {
    type V = DownloadNextModel;

    open spec fn view(&self) -> DownloadNextModel {
        match *self {
            DownloadNext::Ask { from, recover } => DownloadNextModel::Ask { from, recover },
            DownloadNext::Segments { total, count } => DownloadNextModel::Segments {
                total,
                count,
            },
            DownloadNext::Receive { from } => DownloadNextModel::Receive { from },
            DownloadNext::Check => DownloadNextModel::Check,
            DownloadNext::Complete => DownloadNextModel::Complete,
            DownloadNext::Stop => DownloadNextModel::Stop,
            DownloadNext::Fail { error } => DownloadNextModel::Fail { error: error@ },
        }
    }
}

impl View for DownloadStep {
    type V = DownloadStepModel;

    open spec fn view(&self) -> DownloadStepModel {
        DownloadStepModel {
            note: self.note,
            remove_parts: self.remove_parts,
            remove_file: self.remove_file,
            set_current: self.set_current,
            set_total: self.set_total,
            delay_ms: self.delay_ms as nat,
            next: self.next@,
        }
    }
}

/// A step that does nothing but go on.
pub open spec fn just(next: DownloadNextModel) -> DownloadStepModel {
    DownloadStepModel {
        note: SourceNote::Nothing,
        remove_parts: false,
        remove_file: false,
        set_current: None,
        set_total: None,
        delay_ms: 0,
        next,
    }
}

/// The message for a file that ended too early.
pub open spec fn ended_early_message(expected: int, got: int) -> Seq<char> {
    "Download ended early: expected "@ + signed_decimal(expected) + ", got "@ + signed_decimal(got)
}

/// In how many segments a file is tried next when a segment failed: in half as many; in one, which
/// is the whole file in a single stream, at last.
pub open spec fn fewer_segments(count: i64) -> i64 {
    (count as int / 2) as i64
}

/// A download: from where the next attempt goes on, the attempt, counted from zero, whether the
/// speed is limited, the last error, and where it stands.
pub struct DownloadModel {
    pub resume: i64,
    pub attempt: int,
    pub limited: bool,
    pub last_error: Option<Seq<char>>,
    pub phase: DownloadPhase,
}

impl DownloadModel {
    /// The attempt is one of those allowed, and no position is below zero.
    pub open spec fn wf(self) -> bool {
        &&& 0 <= self.attempt < TOTAL_DOWNLOAD_ATTEMPTS
        &&& self.resume >= 0
        &&& self.phase matches DownloadPhase::Receiving { from, total } ==> from >= 0 && from + total
            <= i64::MAX
        &&& self.phase matches DownloadPhase::Segments { total, count } ==> self.attempt == 0
            && !self.limited && (count == 2 || count == 4 || count == 8) && count
            <= segment_count_of(total as int)
    }

    /// From where an answer is written: from the beginning where the whole file comes.
    pub open spec fn written_from(self, plan: StreamPlan) -> int {
        if plan.restart_from_zero {
            0
        } else {
            self.resume as int
        }
    }

    /// An event that can happen where the download stands.
    pub open spec fn expects(self, event: DownloadEvent) -> bool {
        match self.phase {
            DownloadPhase::Asked => event is NotOpened || (event matches DownloadEvent::Opened {
                plan,
            } && self.written_from(plan) + plan.total_progress <= i64::MAX),
            DownloadPhase::Segments { .. } => event is SegmentsDone || event is SegmentsFailed,
            DownloadPhase::CheckingSegments => event is Intact || event is Damaged,
            DownloadPhase::Receiving { .. } => (event matches DownloadEvent::Received { file_length }
                && file_length >= 0) || (event matches DownloadEvent::BrokenOff {
                file_length: broken_length,
                ..
            } && broken_length >= 0),
            DownloadPhase::Checking => event is Intact || (event matches DownloadEvent::Damaged {
                file_length,
                ..
            } && file_length >= 0),
            DownloadPhase::Over => false,
        }
    }

    /// The download at its next attempt, after `effects`; failed with its last error if there is
    /// none. The first clean attempt begins at zero.
    pub open spec fn retried(
        self,
        resume: i64,
        last_error: Option<Seq<char>>,
        effects: DownloadStepModel,
        delay: bool,
        fail_with: Option<Seq<char>>,
    ) -> (DownloadModel, DownloadStepModel) {
        if self.attempt + 1 < TOTAL_DOWNLOAD_ATTEMPTS {
            let recover = self.attempt + 1 == SEGMENT_DOWNLOAD_RETRIES;
            let from = if recover {
                0
            } else {
                resume
            };
            (
                DownloadModel {
                    resume: from,
                    attempt: self.attempt + 1,
                    last_error,
                    phase: DownloadPhase::Asked,
                    ..self
                },
                DownloadStepModel {
                    delay_ms: if delay {
                        delay_after(self.attempt as nat)
                    } else {
                        0
                    },
                    next: DownloadNextModel::Ask { from, recover },
                    ..effects
                },
            )
        } else {
            (
                DownloadModel { resume, last_error, phase: DownloadPhase::Over, ..self },
                DownloadStepModel {
                    delay_ms: 0,
                    next: DownloadNextModel::Fail {
                        error: match fail_with {
                            Some(error) => error,
                            None => match last_error {
                                Some(error) => error,
                                None => "Download failed"@,
                            },
                        },
                    },
                    ..effects
                },
            )
        }
    }

    /// The effects of a failure after which the next attempt goes on from what is there.
    pub open spec fn kept(kind: SourceFailureKind, length: i64) -> DownloadStepModel {
        DownloadStepModel {
            note: SourceNote::Failed { kind },
            set_current: Some(length),
            ..just(DownloadNextModel::Check)
        }
    }

    /// The effects of a failure of the segments: nothing is kept of them.
    pub open spec fn discarded(note: SourceNote) -> DownloadStepModel {
        DownloadStepModel {
            note,
            remove_parts: true,
            remove_file: true,
            set_current: Some(0i64),
            ..just(DownloadNextModel::Check)
        }
    }

    /// A file is cut on the first attempt, from its beginning, where the source serves parts, the
    /// file is large, and the speed is not limited.
    pub open spec fn cuts(self, plan: StreamPlan) -> bool {
        self.attempt == 0 && self.written_from(plan) == 0 && plan.supports_ranges
            && segment_count_of(plan.total_progress as int) > 1 && !self.limited
    }

    /// How the download goes on after an event.
    pub open spec fn next(self, event: DownloadEvent) -> (DownloadModel, DownloadStepModel) {
        match event {
            DownloadEvent::NotOpened { error } => if tells_range_reset(error@) {
                self.retried(
                    0,
                    self.last_error,
                    DownloadStepModel {
                        note: SourceNote::Recover,
                        remove_file: true,
                        set_current: Some(0i64),
                        ..just(DownloadNextModel::Check)
                    },
                    true,
                    Some(error@),
                )
            } else {
                self.retried(
                    self.resume,
                    if self.attempt + 1 < TOTAL_DOWNLOAD_ATTEMPTS {
                        Some(error@)
                    } else {
                        self.last_error
                    },
                    just(DownloadNextModel::Check),
                    true,
                    Some(error@),
                )
            },
            DownloadEvent::Opened { plan } => {
                let from = self.written_from(plan) as i64;
                let set_current = if plan.restart_from_zero {
                    Some(0i64)
                } else {
                    None
                };
                if self.cuts(plan) {
                    (
                        DownloadModel {
                            phase: DownloadPhase::Segments {
                                total: plan.total_progress,
                                count: segment_count_of(plan.total_progress as int) as i64,
                            },
                            ..self
                        },
                        DownloadStepModel {
                            set_current,
                            set_total: Some(plan.total_progress),
                            ..just(
                                DownloadNextModel::Segments {
                                    total: plan.total_progress,
                                    count: segment_count_of(plan.total_progress as int) as i64,
                                },
                            )
                        },
                    )
                } else {
                    (
                        DownloadModel {
                            phase: DownloadPhase::Receiving { from, total: plan.total_progress },
                            ..self
                        },
                        DownloadStepModel {
                            set_current,
                            set_total: Some(plan.total_progress),
                            ..just(DownloadNextModel::Receive { from })
                        },
                    )
                }
            },
            DownloadEvent::SegmentsDone => (
                DownloadModel { phase: DownloadPhase::CheckingSegments, ..self },
                just(DownloadNextModel::Check),
            ),
            DownloadEvent::SegmentsFailed { error } => match self.phase {
                DownloadPhase::Segments { total, count } => if fewer_segments(count) > 1 {
                    (
                        DownloadModel {
                            last_error: Some(error@),
                            phase: DownloadPhase::Segments { total, count: fewer_segments(count) },
                            ..self
                        },
                        DownloadStepModel {
                            next: DownloadNextModel::Segments {
                                total,
                                count: fewer_segments(count),
                            },
                            ..Self::discarded(SourceNote::Nothing)
                        },
                    )
                } else {
                    self.retried(
                        0,
                        Some(error@),
                        Self::discarded(SourceNote::Nothing),
                        false,
                        None,
                    )
                },
                _ => arbitrary(),
            },
            DownloadEvent::Received { file_length } => match self.phase {
                DownloadPhase::Receiving { from, total } => if total < 0 || file_length == from
                    + total {
                    (
                        DownloadModel { phase: DownloadPhase::Checking, ..self },
                        just(DownloadNextModel::Check),
                    )
                } else {
                    self.retried(
                        file_length,
                        Some(ended_early_message(from + total, file_length as int)),
                        Self::kept(SourceFailureKind::Transfer, file_length),
                        true,
                        None,
                    )
                },
                _ => arbitrary(),
            },
            DownloadEvent::BrokenOff { error, cancelled, file_length } => if cancelled {
                (
                    DownloadModel { phase: DownloadPhase::Over, ..self },
                    just(DownloadNextModel::Stop),
                )
            } else {
                self.retried(
                    file_length,
                    Some(error@),
                    Self::kept(SourceFailureKind::Transfer, file_length),
                    true,
                    None,
                )
            },
            DownloadEvent::Intact => (
                DownloadModel { phase: DownloadPhase::Over, ..self },
                just(DownloadNextModel::Complete),
            ),
            DownloadEvent::Damaged { error, file_length } => match self.phase {
                DownloadPhase::CheckingSegments => self.retried(
                    0,
                    Some(error@),
                    Self::discarded(SourceNote::Failed { kind: SourceFailureKind::Integrity }),
                    false,
                    None,
                ),
                _ => self.retried(
                    file_length,
                    Some(error@),
                    Self::kept(SourceFailureKind::Integrity, file_length),
                    true,
                    None,
                ),
            },
        }
    }

    /// How many events the download can still take at most.
    pub open spec fn events_left(self) -> int {
        let later = 5 * (TOTAL_DOWNLOAD_ATTEMPTS - 1 - self.attempt);
        match self.phase {
            DownloadPhase::Asked => later + 5,
            DownloadPhase::Segments { count, .. } => if count > 4 {
                later + 4
            } else if count > 2 {
                later + 3
            } else {
                later + 2
            },
            DownloadPhase::Receiving { .. } => later + 2,
            DownloadPhase::CheckingSegments => later + 1,
            DownloadPhase::Checking => later + 1,
            DownloadPhase::Over => 0,
        }
    }
}

/// The download of one file.
#[derive(Debug)]
pub struct DownloadTask {
    pub resume: i64,
    pub attempt: usize,
    pub limited: bool,
    pub last_error: Option<BGUMCLError>,
    pub phase: DownloadPhase,
}

/// The message of an optional error.
pub open spec fn opt_message(error: Option<BGUMCLError>) -> Option<Seq<char>> {
    match error {
        Some(error) => Some(error@),
        None => None,
    }
}

impl View for DownloadTask {
    type V = DownloadModel;

    open spec fn view(&self) -> DownloadModel {
        DownloadModel {
            resume: self.resume,
            attempt: self.attempt as int,
            limited: self.limited,
            last_error: opt_message(self.last_error),
            phase: self.phase,
        }
    }
}

/// What precedes the next attempt.
struct Effects {
    note: SourceNote,
    remove_parts: bool,
    remove_file: bool,
    set_current: Option<i64>,
}

impl DownloadTask {
    /// Begins a download of which `current` bytes are there already.
    pub fn begin(current: i64, limited: bool) -> (r: (DownloadTask, DownloadStep))
        requires
            current >= 0,
        ensures
            r.0@.wf(),
            r.0@ == (DownloadModel {
                resume: current,
                attempt: 0,
                limited,
                last_error: None,
                phase: DownloadPhase::Asked,
            }),
            r.1@ == just(DownloadNextModel::Ask { from: current, recover: false }),
    {
        (
            DownloadTask {
                resume: current,
                attempt: 0,
                limited,
                last_error: None,
                phase: DownloadPhase::Asked,
            },
            Self::only(DownloadNext::Ask { from: current, recover: false }),
        )
    }

    fn only(next: DownloadNext) -> (r: DownloadStep)
        ensures
            r@ == just(next@),
    {
        DownloadStep {
            note: SourceNote::Nothing,
            remove_parts: false,
            remove_file: false,
            set_current: None,
            set_total: None,
            delay_ms: 0,
            next,
        }
    }

    fn retry(
        &mut self,
        resume: i64,
        error: Option<BGUMCLError>,
        effects: Effects,
        delay: bool,
        fail_with: Option<BGUMCLError>,
    ) -> (r: DownloadStep)
        requires
            old(self)@.wf(),
            resume >= 0,
        ensures
            final(self)@.wf(),
            (final(self)@, r@) == old(self)@.retried(
                resume,
                match error {
                    Some(e) => Some(e@),
                    None => old(self)@.last_error,
                },
                (DownloadStepModel {
                    note: effects.note,
                    remove_parts: effects.remove_parts,
                    remove_file: effects.remove_file,
                    set_current: effects.set_current,
                    ..just(DownloadNextModel::Check)
                }),
                delay,
                opt_message(fail_with),
            ),
    {
        if error.is_some() {
            self.last_error = error;
        }
        if self.attempt + 1 < TOTAL_DOWNLOAD_ATTEMPTS {
            let delay_ms = if delay {
                retry_delay(self.attempt)
            } else {
                0
            };
            self.attempt = self.attempt + 1;
            let recover = self.attempt == SEGMENT_DOWNLOAD_RETRIES;
            self.resume = if recover {
                0
            } else {
                resume
            };
            self.phase = DownloadPhase::Asked;
            DownloadStep {
                note: effects.note,
                remove_parts: effects.remove_parts,
                remove_file: effects.remove_file,
                set_current: effects.set_current,
                set_total: None,
                delay_ms,
                next: DownloadNext::Ask { from: self.resume, recover },
            }
        } else {
            self.resume = resume;
            self.phase = DownloadPhase::Over;
            let error = match fail_with {
                Some(error) => error,
                None => match &self.last_error {
                    Some(error) => error.duplicate(),
                    None => BGUMCLError::new("Download failed"),
                },
            };
            DownloadStep {
                note: effects.note,
                remove_parts: effects.remove_parts,
                remove_file: effects.remove_file,
                set_current: effects.set_current,
                set_total: None,
                delay_ms: 0,
                next: DownloadNext::Fail { error },
            }
        }
    }

    fn opened(&mut self, plan: StreamPlan) -> (r: DownloadStep)
        requires
            old(self)@.wf(),
            old(self)@.phase == DownloadPhase::Asked,
            old(self)@.written_from(plan) + plan.total_progress <= i64::MAX,
        ensures
            final(self)@.wf(),
            (final(self)@, r@) == old(self)@.next(DownloadEvent::Opened { plan }),
    {
        let from: i64 = if plan.restart_from_zero {
            0
        } else {
            self.resume
        };
        let set_current = if plan.restart_from_zero {
            Some(0i64)
        } else {
            None
        };
        let count = segment_count_for_size(plan.total_progress);
        let next = if self.attempt == 0 && from == 0 && plan.supports_ranges && count > 1
            && !self.limited {
            self.phase = DownloadPhase::Segments { total: plan.total_progress, count };
            DownloadNext::Segments { total: plan.total_progress, count }
        } else {
            self.phase = DownloadPhase::Receiving { from, total: plan.total_progress };
            DownloadNext::Receive { from }
        };
        DownloadStep {
            note: SourceNote::Nothing,
            remove_parts: false,
            remove_file: false,
            set_current,
            set_total: Some(plan.total_progress),
            delay_ms: 0,
            next,
        }
    }

    /// Takes an event that can happen now, and says what to do.
    pub fn step(&mut self, event: DownloadEvent) -> (r: DownloadStep)
        requires
            old(self)@.wf(),
            old(self)@.expects(event),
        ensures
            final(self)@.wf(),
            (final(self)@, r@) == old(self)@.next(event),
    {
        match event {
            DownloadEvent::NotOpened { error } => {
                if is_range_reset_error(&error) {
                    self.retry(
                        0,
                        None,
                        Effects {
                            note: SourceNote::Recover,
                            remove_parts: false,
                            remove_file: true,
                            set_current: Some(0),
                        },
                        true,
                        Some(error),
                    )
                } else {
                    let resume = self.resume;
                    let effects = Effects {
                        note: SourceNote::Nothing,
                        remove_parts: false,
                        remove_file: false,
                        set_current: None,
                    };
                    if self.attempt + 1 < TOTAL_DOWNLOAD_ATTEMPTS {
                        let copy = error.duplicate();
                        self.retry(resume, Some(copy), effects, true, Some(error))
                    } else {
                        self.retry(resume, None, effects, true, Some(error))
                    }
                }
            },
            DownloadEvent::Opened { plan } => self.opened(plan),
            DownloadEvent::SegmentsDone => {
                self.phase = DownloadPhase::CheckingSegments;
                Self::only(DownloadNext::Check)
            },
            DownloadEvent::SegmentsFailed { error } => {
                let (total, count) = match self.phase {
                    DownloadPhase::Segments { total, count } => (total, count),
                    _ => (0, 0),
                };
                let fewer: i64 = count / 2;
                if fewer > 1 {
                    self.last_error = Some(error);
                    self.phase = DownloadPhase::Segments { total, count: fewer };
                    return DownloadStep {
                        note: SourceNote::Nothing,
                        remove_parts: true,
                        remove_file: true,
                        set_current: Some(0),
                        set_total: None,
                        delay_ms: 0,
                        next: DownloadNext::Segments { total, count: fewer },
                    };
                }
                self.retry(
                    0,
                    Some(error),
                    Effects {
                        note: SourceNote::Nothing,
                        remove_parts: true,
                        remove_file: true,
                        set_current: Some(0),
                    },
                    false,
                    None,
                )
            },
            DownloadEvent::Received { file_length } => {
                let (from, total) = match self.phase {
                    DownloadPhase::Receiving { from, total } => (from, total),
                    _ => (0, 0),
                };
                if total < 0 || file_length == from + total {
                    self.phase = DownloadPhase::Checking;
                    return Self::only(DownloadNext::Check);
                }
                let a = signed_decimal_text(from + total);
                let b = signed_decimal_text(file_length);
                let message = concat4(
                    "Download ended early: expected ",
                    a.as_str(),
                    ", got ",
                    b.as_str(),
                );
                self.retry(
                    file_length,
                    Some(BGUMCLError(message)),
                    Effects {
                        note: SourceNote::Failed { kind: SourceFailureKind::Transfer },
                        remove_parts: false,
                        remove_file: false,
                        set_current: Some(file_length),
                    },
                    true,
                    None,
                )
            },
            DownloadEvent::BrokenOff { error, cancelled, file_length } => {
                if cancelled {
                    self.phase = DownloadPhase::Over;
                    return Self::only(DownloadNext::Stop);
                }
                self.retry(
                    file_length,
                    Some(error),
                    Effects {
                        note: SourceNote::Failed { kind: SourceFailureKind::Transfer },
                        remove_parts: false,
                        remove_file: false,
                        set_current: Some(file_length),
                    },
                    true,
                    None,
                )
            },
            DownloadEvent::Intact => {
                self.phase = DownloadPhase::Over;
                Self::only(DownloadNext::Complete)
            },
            DownloadEvent::Damaged { error, file_length } => {
                let segments = match self.phase {
                    DownloadPhase::CheckingSegments => true,
                    _ => false,
                };
                if segments {
                    self.retry(
                        0,
                        Some(error),
                        Effects {
                            note: SourceNote::Failed { kind: SourceFailureKind::Integrity },
                            remove_parts: true,
                            remove_file: true,
                            set_current: Some(0),
                        },
                        false,
                        None,
                    )
                } else {
                    self.retry(
                        file_length,
                        Some(error),
                        Effects {
                            note: SourceNote::Failed { kind: SourceFailureKind::Integrity },
                            remove_parts: false,
                            remove_file: false,
                            set_current: Some(file_length),
                        },
                        true,
                        None,
                    )
                }
            },
        }
    }
}

/// A download takes only so many events: each brings it nearer to its end.
pub proof fn downloads_come_to_an_end(s: DownloadModel, event: DownloadEvent)
    requires
        s.wf(),
        s.expects(event),
    ensures
        s.next(event).0.wf(),
        0 <= s.next(event).0.events_left() < s.events_left(),
        s.next(event).0.phase == DownloadPhase::Over <==> (s.next(event).1.next is Complete
            || s.next(event).1.next is Stop || s.next(event).1.next is Fail),
{
}

/// A download is complete only when its file was found intact, and the file is checked only when
/// all of it has come: as many bytes as the source told, or every segment.
pub proof fn only_intact_files_complete_a_download(s: DownloadModel, event: DownloadEvent)
    requires
        s.wf(),
        s.expects(event),
    ensures
        s.next(event).1.next is Complete ==> event is Intact && (s.phase == DownloadPhase::Checking
            || s.phase == DownloadPhase::CheckingSegments),
        s.next(event).1.next is Check ==> event is SegmentsDone || (s.phase matches
            DownloadPhase::Receiving { from, total } && event matches DownloadEvent::Received {
            file_length,
        } && (total < 0 || file_length == from + total)),
{
}

/// An error that says that the download cannot go on from where it stopped makes the next attempt
/// begin at zero, with no file and with every failure of the sources forgotten.
pub proof fn stale_positions_are_given_up(s: DownloadModel, error: BGUMCLError)
    requires
        s.wf(),
        s.phase == DownloadPhase::Asked,
        tells_range_reset(error@),
    ensures
        ({
            let (after, step) = s.next(DownloadEvent::NotOpened { error });
            &&& step.note == SourceNote::Recover
            &&& step.remove_file
            &&& step.set_current == Some(0i64)
            &&& s.attempt + 1 < TOTAL_DOWNLOAD_ATTEMPTS ==> step.next == (DownloadNextModel::Ask {
                from: 0,
                recover: s.attempt + 1 == SEGMENT_DOWNLOAD_RETRIES,
            })
            &&& s.attempt + 1 == TOTAL_DOWNLOAD_ATTEMPTS ==> step.next == (DownloadNextModel::Fail {
                error: error@,
            })
        }),
{
}

/// The clean attempts begin at zero after everything was forgotten, and none of them is cut into
/// segments.
pub proof fn recovery_starts_clean(s: DownloadModel, event: DownloadEvent)
    requires
        s.wf(),
        s.expects(event),
    ensures
        s.next(event).0.attempt == SEGMENT_DOWNLOAD_RETRIES && s.attempt < SEGMENT_DOWNLOAD_RETRIES
            ==> s.next(event).1.next == (DownloadNextModel::Ask { from: 0, recover: true })
            && s.next(event).0.resume == 0,
        s.attempt > 0 ==> !(s.next(event).1.next is Segments),
        s.limited ==> !(s.next(event).1.next is Segments),
{
}

/// A file whose segments fail is cut into half as many, from the beginning and with nothing kept,
/// until it is asked for in a single stream.
pub proof fn failing_segments_become_fewer(s: DownloadModel, error: BGUMCLError)
    requires
        s.wf(),
        s.phase is Segments,
    ensures
        ({
            let count = s.phase->Segments_count;
            let (after, step) = s.next(DownloadEvent::SegmentsFailed { error });
            &&& step.remove_parts
            &&& step.remove_file
            &&& step.set_current == Some(0i64)
            &&& after.last_error == Some(error@)
            &&& count > 2 ==> step.next == (DownloadNextModel::Segments {
                total: s.phase->Segments_total,
                count: fewer_segments(count),
            }) && after.attempt == s.attempt
            &&& count == 2 ==> step.next == (DownloadNextModel::Ask { from: 0, recover: false })
        }),
{
}

/// A download that fails for good tells the error that came last.
pub proof fn failed_downloads_tell_the_last_error(s: DownloadModel, event: DownloadEvent)
    requires
        s.wf(),
        s.expects(event),
        s.next(event).1.next is Fail,
    ensures
        s.attempt + 1 == TOTAL_DOWNLOAD_ATTEMPTS,
        match event {
            DownloadEvent::NotOpened { error } => s.next(event).1.next->error == error@,
            DownloadEvent::SegmentsFailed { error } => s.next(event).1.next->error == error@,
            DownloadEvent::BrokenOff { error, .. } => s.next(event).1.next->error == error@,
            DownloadEvent::Damaged { error, .. } => s.next(event).1.next->error == error@,
            DownloadEvent::Received { .. } => s.next(event).1.next->error
                == s.next(event).0.last_error->0,
            _ => false,
        },
{
}

/// What was written is never asked for again: after a broken transfer the next ordinary attempt
/// goes on at the end of the file, and the progress says so.
pub proof fn broken_transfers_go_on_where_they_stopped(
    s: DownloadModel,
    error: BGUMCLError,
    file_length: i64,
)
    requires
        s.wf(),
        s.phase is Receiving,
        file_length >= 0,
        s.attempt + 1 < TOTAL_DOWNLOAD_ATTEMPTS,
        s.attempt + 1 != SEGMENT_DOWNLOAD_RETRIES,
    ensures
        ({
            let (after, step) = s.next(
                DownloadEvent::BrokenOff { error, cancelled: false, file_length },
            );
            &&& step.next == (DownloadNextModel::Ask { from: file_length, recover: false })
            &&& step.set_current == Some(file_length)
            &&& step.delay_ms == delay_after(s.attempt as nat)
        }),
{
}

/// The position that is asked for is the one from which the answer is written. An answer that does
/// not begin the file anew is written behind what is there, at the position of the last request; one
/// that does is written from the beginning. What was received is checked exactly where the file has
/// the length of that position and the promised bytes together, or where nothing was promised.
pub proof fn answers_are_written_where_they_were_asked_for(
    s: DownloadModel,
    event: DownloadEvent,
    plan: StreamPlan,
    file_length: i64,
)
    requires
        s.wf(),
        s.expects(event),
        s.next(event).1.next is Ask,
        s.next(event).1.next->Ask_from + plan.total_progress <= i64::MAX,
        plan.total_progress <= i64::MAX,
        file_length >= 0,
    ensures
        ({
            let (asked, request) = s.next(event);
            let position: i64 = request.next->Ask_from;
            let (opened, answer) = asked.next(DownloadEvent::Opened { plan });
            let begun: i64 = if plan.restart_from_zero {
                0
            } else {
                position
            };
            &&& asked.expects(DownloadEvent::Opened { plan })
            &&& answer.next == (DownloadNextModel::Receive { from: begun }) || (answer.next is Segments
                && begun == 0)
            &&& answer.next is Receive ==> {
                let (_, received) = opened.next(DownloadEvent::Received { file_length });
                &&& opened.expects(DownloadEvent::Received { file_length })
                &&& received.next is Check <==> plan.total_progress < 0 || file_length == begun
                    + plan.total_progress
            }
        }),
{
    answers_are_written_where_the_download_stands(s.next(event).0, plan, file_length);
}

/// An answer to the request that a download waits for is written from the position where the
/// download stands, or from the beginning where it begins the file anew.
pub proof fn answers_are_written_where_the_download_stands(s: DownloadModel, plan: StreamPlan, file_length: i64)
    requires
        s.wf(),
        s.phase == DownloadPhase::Asked,
        s.resume + plan.total_progress <= i64::MAX,
        file_length >= 0,
    ensures
        s.expects(DownloadEvent::Opened { plan }),
        ({
            let (opened, answer) = s.next(DownloadEvent::Opened { plan });
            let begun: i64 = if plan.restart_from_zero {
                0
            } else {
                s.resume
            };
            &&& answer.next == (DownloadNextModel::Receive { from: begun }) || (answer.next is Segments
                && begun == 0)
            &&& answer.next is Receive ==> opened.expects(DownloadEvent::Received { file_length })
                && (opened.next(DownloadEvent::Received { file_length }).1.next is Check
                <==> plan.total_progress < 0 || file_length == begun + plan.total_progress)
        }),
{
}

/// What a source that serves a file sends in answer to a request: all of it, or what follows the
/// position that was asked for.
pub open spec fn served(content: Seq<u8>, position: int, whole: bool) -> Seq<u8> {
    if whole {
        content
    } else {
        content.skip(position)
    }
}

/// A file on disk once bytes were written to it from a position on.
pub open spec fn with_written(disk: Seq<u8>, from: int, bytes: Seq<u8>) -> Seq<u8> {
    disk.take(from) + bytes
}

/// A download from a source that serves a file gives that file. While what is on disk is a beginning
/// of the file, as long as the position where the download stands, what the source sends is written
/// so that what is on disk then is a beginning of the file again. All of what was promised makes up
/// the file, which is then checked; less of it is not taken for the file, and the next attempt goes
/// on behind what was written, or from the beginning with nothing on disk.
pub proof fn served_files_arrive_whole(
    s: DownloadModel,
    content: Seq<u8>,
    disk: Seq<u8>,
    plan: StreamPlan,
    arrived: int,
    error: BGUMCLError,
)
    requires
        s.wf(),
        s.phase == DownloadPhase::Asked,
        content.len() <= i64::MAX,
        disk.len() == s.resume,
        disk.is_prefix_of(content),
        plan.total_progress == served(content, s.resume as int, plan.restart_from_zero).len(),
        0 <= arrived <= plan.total_progress,
    ensures
        ({
            let (opened, answer) = s.next(DownloadEvent::Opened { plan });
            answer.next matches DownloadNextModel::Receive { from } ==> {
                let bytes = served(content, s.resume as int, plan.restart_from_zero).take(arrived);
                let written = with_written(disk, from as int, bytes);
                let file_length = written.len() as i64;
                let (ended, end) = opened.next(DownloadEvent::Received { file_length });
                let (broken, rest) = opened.next(
                    DownloadEvent::BrokenOff { error, cancelled: false, file_length },
                );
                &&& 0 <= from <= disk.len()
                &&& written.is_prefix_of(content)
                &&& arrived == plan.total_progress ==> written == content && end.next is Check
                &&& arrived < plan.total_progress ==> !(end.next is Check) && !(end.next is Complete)
                &&& end.next matches DownloadNextModel::Ask { from, recover } ==> ended.resume == from
                    && from == (if recover {
                    0
                } else {
                    written.len()
                }) && !end.remove_file
                &&& rest.next matches DownloadNextModel::Ask { from, recover } ==> broken.resume
                    == from && from == (if recover {
                    0
                } else {
                    written.len()
                }) && !rest.remove_file
            }
        }),
{
    let position = s.resume as int;
    let (opened, answer) = s.next(DownloadEvent::Opened { plan });
    assert(disk =~= content.subrange(0, disk.len() as int));
    if answer.next is Receive {
        let from = answer.next->Receive_from as int;
        let bytes = served(content, position, plan.restart_from_zero).take(arrived);
        let written = with_written(disk, from, bytes);
        assert(written =~= content.subrange(0, from + arrived));
        if arrived == plan.total_progress {
            assert(written =~= content);
        }
    }
}

/// A file is downloaded in segments exactly where that is the first attempt, the file is to be
/// written from its beginning, the source serves parts, the file has at least eight mebibytes, and
/// the speed is not limited. The segments make up the bytes that were promised.
pub proof fn large_files_are_cut_on_the_first_attempt(s: DownloadModel, plan: StreamPlan)
    requires
        s.wf(),
        s.phase == DownloadPhase::Asked,
        s.expects(DownloadEvent::Opened { plan }),
    ensures
        ({
            let (opened, answer) = s.next(DownloadEvent::Opened { plan });
            &&& answer.next is Segments <==> s.attempt == 0 && (plan.restart_from_zero || s.resume
                == 0) && plan.supports_ranges && plan.total_progress >= 8 * 1024 * 1024
                && !s.limited
            &&& answer.next matches DownloadNextModel::Segments { total, count } ==> total
                == plan.total_progress && count == segment_count_of(total as int) && opened.phase == (
            DownloadPhase::Segments { total, count })
            &&& answer.set_total == Some(plan.total_progress)
            &&& plan.restart_from_zero ==> answer.set_current == Some(0i64)
            &&& !plan.restart_from_zero ==> answer.set_current is None
            &&& answer.note == SourceNote::Nothing && !answer.remove_file && !answer.remove_parts
            &&& answer.delay_ms == 0
            &&& opened.attempt == s.attempt && opened.resume == s.resume && opened.last_error
                == s.last_error && opened.limited == s.limited
        }),
{
}

/// A request that no source answers is repeated from the same position, after a wait, with nothing
/// removed and nothing told of the sources; unless the error says that the position is stale.
pub proof fn unanswered_requests_are_repeated(s: DownloadModel, error: BGUMCLError)
    requires
        s.wf(),
        s.phase == DownloadPhase::Asked,
        !tells_range_reset(error@),
    ensures
        ({
            let (after, step) = s.next(DownloadEvent::NotOpened { error });
            &&& step.note == SourceNote::Nothing
            &&& !step.remove_file && !step.remove_parts
            &&& step.set_current is None && step.set_total is None
            &&& s.attempt == 6 ==> step.next == (DownloadNextModel::Fail { error: error@ })
            &&& s.attempt < 6 ==> step.delay_ms == delay_after(s.attempt as nat) && after.last_error
                == Some(error@)
            &&& s.attempt == 3 ==> step.next == (DownloadNextModel::Ask { from: 0, recover: true })
            &&& s.attempt < 6 && s.attempt != 3 ==> step.next == (DownloadNextModel::Ask {
                from: s.resume,
                recover: false,
            })
        }),
{
}

/// Every failure brings the next of seven attempts: an ordinary one up to the fourth, a clean one
/// from the fifth on, of which the first forgets everything. Nothing else counts as an attempt.
pub proof fn attempts_are_counted(s: DownloadModel, event: DownloadEvent)
    requires
        s.wf(),
        s.expects(event),
    ensures
        ({
            let (after, step) = s.next(event);
            &&& step.next matches DownloadNextModel::Ask { from, recover } ==> {
                &&& after.attempt == s.attempt + 1
                &&& after.attempt <= 6
                &&& recover == (after.attempt == 4)
                &&& from == after.resume
                &&& after.phase == DownloadPhase::Asked
            }
            &&& !(step.next is Ask) ==> after.attempt == s.attempt
            &&& step.next is Fail ==> s.attempt == 6
            &&& after.limited == s.limited
            &&& (event is NotOpened || event is Damaged || (event is SegmentsFailed && (
            s.phase matches DownloadPhase::Segments { count, .. } && count == 2))) ==> step.next is Ask
                || step.next is Fail
            &&& event matches DownloadEvent::BrokenOff { cancelled, .. } ==> (cancelled
                <==> step.next is Stop) && (!cancelled ==> step.next is Ask || step.next is Fail)
        }),
{
}

/// A received file that is not intact counts as a failure of its source; the next attempt goes on
/// from its end. A file that was put together from segments is thrown away with its parts, and the
/// next attempt begins at once and from the beginning.
pub proof fn damaged_files_are_tried_again(s: DownloadModel, error: BGUMCLError, file_length: i64)
    requires
        s.wf(),
        s.expects(DownloadEvent::Damaged { error, file_length }),
        s.attempt != 3,
        s.attempt < 6,
    ensures
        ({
            let (after, step) = s.next(DownloadEvent::Damaged { error, file_length });
            &&& step.note == (SourceNote::Failed { kind: SourceFailureKind::Integrity })
            &&& after.last_error == Some(error@)
            &&& s.phase == DownloadPhase::Checking ==> step.next == (DownloadNextModel::Ask {
                from: file_length,
                recover: false,
            }) && step.set_current == Some(file_length) && !step.remove_file && !step.remove_parts
                && step.delay_ms == delay_after(s.attempt as nat)
            &&& s.phase == DownloadPhase::CheckingSegments ==> step.next == (DownloadNextModel::Ask {
                from: 0,
                recover: false,
            }) && step.set_current == Some(0i64) && step.remove_file && step.remove_parts
                && step.delay_ms == 0
        }),
{
}

/// A transfer that ended before all promised bytes came counts as a failure of its source. It goes
/// on behind what was written, and the progress says so.
pub proof fn short_transfers_go_on_where_they_stopped(s: DownloadModel, file_length: i64)
    requires
        s.wf(),
        s.phase is Receiving,
        file_length >= 0,
        s.phase->Receiving_total >= 0,
        file_length != s.phase->Receiving_from + s.phase->Receiving_total,
        s.attempt != 3,
        s.attempt < 6,
    ensures
        ({
            let (after, step) = s.next(DownloadEvent::Received { file_length });
            &&& step.next == (DownloadNextModel::Ask { from: file_length, recover: false })
            &&& step.note == (SourceNote::Failed { kind: SourceFailureKind::Transfer })
            &&& step.set_current == Some(file_length)
            &&& !step.remove_file && !step.remove_parts
            &&& step.delay_ms == delay_after(s.attempt as nat)
        }),
{
}

// ---------------------------------------------------------------------------------------------
// The account of a transfer
// ---------------------------------------------------------------------------------------------
/// What to do before the next read of a transfer.
#[derive(Clone, Copy, Debug, PartialEq, Eq, Structural)]
pub enum ReadGate {
    /// Read.
    Read,
    /// The task is stopped: wait 200 milliseconds and ask again.
    Wait,
    /// The task or its group was cancelled.
    Cancelled,
}

/// Whether a transfer reads on.
pub fn read_gate(task_cancelled: bool, group_cancelled: bool, task_stopped: bool) -> (r: ReadGate)
    ensures
        r == (if task_cancelled || group_cancelled {
            ReadGate::Cancelled
        } else if task_stopped {
            ReadGate::Wait
        } else {
            ReadGate::Read
        }),
{
    if task_cancelled || group_cancelled {
        ReadGate::Cancelled
    } else if task_stopped {
        ReadGate::Wait
    } else {
        ReadGate::Read
    }
}

/// The error of a cancelled transfer.
pub fn cancelled_error() -> (r: BGUMCLError)
    ensures
        r@ == "Download cancelled"@,
{
    BGUMCLError::new("Download cancelled")
}

/// The error of a transfer whose source fell silent.
pub fn silent_source_error(limited: bool) -> (r: BGUMCLError)
    ensures
        r@ == (if limited {
            "Download source produced no data for 60s"@
        } else {
            "Download source produced no data for 10s"@
        }),
{
    if limited {
        BGUMCLError::new("Download source produced no data for 60s")
    } else {
        BGUMCLError::new("Download source produced no data for 10s")
    }
}

/// Whether a download that ends leaves nothing behind: its file and its parts are removed where
/// it, or its group, was cancelled.
pub fn cleans_up(task_cancelled: bool, group_cancelled: bool) -> (r: bool)
    ensures
        r == (task_cancelled || group_cancelled),
{
    task_cancelled || group_cancelled
}

/// The time between two reports of progress, in nanoseconds.
pub const REPORT_INTERVAL_NANOS: u128 = 250_000_000;

/// The account of a transfer: the bytes not reported yet, those received, and when progress was
/// reported last.
#[derive(Clone, Copy, Debug, PartialEq, Eq, Structural)]
pub struct TransferMeter {
    pub pending: i64,
    pub transferred: i64,
    pub started_at: u128,
    pub reported_at: u128,
}

impl TransferMeter {
    /// Nothing counted is below zero.
    pub open spec fn wf(self) -> bool {
        0 <= self.pending && 0 <= self.transferred
    }

    /// The account of a transfer that begins.
    pub fn begin(now: u128) -> (r: TransferMeter)
        ensures
            r.wf(),
            r == (TransferMeter { pending: 0, transferred: 0, started_at: now, reported_at: now }),
    {
        TransferMeter { pending: 0, transferred: 0, started_at: now, reported_at: now }
    }

    /// A report is due.
    pub open spec fn due(self, now: u128) -> bool {
        now >= self.reported_at + REPORT_INTERVAL_NANOS
    }

    /// The account once `size` bytes were received.
    pub open spec fn after(self, size: int, now: u128) -> TransferMeter {
        TransferMeter {
            pending: if self.due(now) {
                0
            } else {
                (self.pending + size) as i64
            },
            transferred: if self.transferred + size > i64::MAX {
                i64::MAX
            } else {
                (self.transferred + size) as i64
            },
            started_at: self.started_at,
            reported_at: if self.due(now) {
                now
            } else {
                self.reported_at
            },
        }
    }

    /// How many bytes are reported once `size` bytes were received: those not reported yet, every
    /// quarter of a second.
    pub open spec fn report(self, size: int, now: u128) -> int {
        if self.due(now) {
            self.pending + size
        } else {
            0
        }
    }

    /// Notes that bytes were received, and says how many to report now, if any.
    pub fn receive(&mut self, size: usize, now: u128) -> (r: Option<i64>)
        requires
            old(self).wf(),
            old(self).pending + size <= i64::MAX,
            old(self).reported_at <= u128::MAX - REPORT_INTERVAL_NANOS,
        ensures
            final(self).wf(),
            *final(self) == old(self).after(size as int, now),
            r == (if old(self).due(now) {
                Some(old(self).report(size as int, now) as i64)
            } else {
                None
            }),
    {
        let size: i64 = size as i64;
        self.pending = self.pending + size;
        self.transferred = if self.transferred > i64::MAX - size {
            i64::MAX
        } else {
            self.transferred + size
        };
        if now >= self.reported_at + REPORT_INTERVAL_NANOS {
            let report = self.pending;
            self.pending = 0;
            self.reported_at = now;
            Some(report)
        } else {
            None
        }
    }

    /// Ends the account: what is left to report, if anything, and the transfer as a whole.
    pub fn finish(&mut self, now: u128) -> (r: (Option<i64>, TransferReport))
        requires
            old(self).wf(),
        ensures
            r.0 == (if old(self).pending > 0 {
                Some(old(self).pending)
            } else {
                None
            }),
            r.1.bytes == old(self).transferred,
            r.1.elapsed_nanos == (if now > old(self).started_at {
                now - old(self).started_at
            } else {
                0
            }),
            *final(self) == (TransferMeter { pending: 0, ..*old(self) }),
    {
        let report = if self.pending > 0 {
            Some(self.pending)
        } else {
            None
        };
        self.pending = 0;
        let elapsed_nanos: u128 = if now > self.started_at {
            now - self.started_at
        } else {
            0
        };
        (report, TransferReport { bytes: self.transferred, elapsed_nanos })
    }
}

/// Progress is reported exactly when a quarter of a second has passed since it was reported last: all
/// that was received since then.
pub proof fn progress_is_reported_every_quarter_of_a_second(m: TransferMeter, size: int, now: u128)
    requires
        m.wf(),
        0 <= size,
        m.pending + size <= i64::MAX,
        m.transferred + size <= i64::MAX,
    ensures
        ({
            let after = m.after(size, now);
            let due = now - m.reported_at >= 250 * 1_000_000;
            &&& m.report(size, now) == (if due {
                m.pending + size
            } else {
                0
            })
            &&& after.pending == (if due {
                0
            } else {
                m.pending + size
            })
            &&& after.reported_at == (if due {
                now
            } else {
                m.reported_at
            })
            &&& after.transferred == m.transferred + size
            &&& after.started_at == m.started_at
        }),
{
}

/// The account after several receipts, each a size and a time.
pub open spec fn meter_after(m: TransferMeter, receipts: Seq<(int, u128)>) -> TransferMeter
    decreases receipts.len(),
{
    if receipts.len() == 0 {
        m
    } else {
        meter_after(m, receipts.drop_last()).after(receipts.last().0, receipts.last().1)
    }
}

/// The bytes reported during several receipts.
pub open spec fn reported_during(m: TransferMeter, receipts: Seq<(int, u128)>) -> int
    decreases receipts.len(),
{
    if receipts.len() == 0 {
        0
    } else {
        reported_during(m, receipts.drop_last()) + meter_after(m, receipts.drop_last()).report(
            receipts.last().0,
            receipts.last().1,
        )
    }
}

/// The bytes of several receipts.
pub open spec fn received_during(receipts: Seq<(int, u128)>) -> int
    decreases receipts.len(),
{
    if receipts.len() == 0 {
        0
    } else {
        received_during(receipts.drop_last()) + receipts.last().0
    }
}

/// No byte is reported twice and none is lost: what was reported and what is still to be reported
/// make up what was received.
pub proof fn progress_reports_account_for_every_byte(
    m: TransferMeter,
    receipts: Seq<(int, u128)>,
)
    requires
        m.wf(),
        forall|i: int| 0 <= i < receipts.len() ==> (#[trigger] receipts[i]).0 >= 0,
        m.pending + received_during(receipts) <= i64::MAX,
    ensures
        reported_during(m, receipts) + meter_after(m, receipts).pending == m.pending
            + received_during(receipts),
        0 <= reported_during(m, receipts),
        0 <= received_during(receipts),
        0 <= meter_after(m, receipts).pending,
    decreases receipts.len(),
{
    if receipts.len() > 0 {
        let front = receipts.drop_last();
        assert(receipts[receipts.len() - 1].0 >= 0);
        assert forall|i: int| 0 <= i < front.len() implies (#[trigger] front[i]).0 >= 0 by {
            assert(receipts[i].0 >= 0);
        }
        progress_reports_account_for_every_byte(m, front);
    }
}

} // verus!
