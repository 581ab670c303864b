//! The handle of a task: its descriptor, and what every change of it calls for.
use vstd::prelude::*;

verus! {

/// How a task stands.
#[derive(Clone, Copy, Debug, PartialEq, Eq, Structural)]
pub enum PStatus {
    Waiting,
    InProgress,
    Stopped,
    Cancelled,
    Completed,
    Failed,
}

impl PStatus {
    /// Whether the task was cancelled.
    pub fn is_cancelled(&self) -> (r: bool)
        ensures
            r == (*self == PStatus::Cancelled),
    {
        matches!(*self, PStatus::Cancelled)
    }

    /// Whether the task is completed.
    pub fn is_completed(&self) -> (r: bool)
        ensures
            r == (*self == PStatus::Completed),
    {
        matches!(*self, PStatus::Completed)
    }

    /// Whether the task is stopped.
    pub fn is_stopped(&self) -> (r: bool)
        ensures
            r == (*self == PStatus::Stopped),
    {
        matches!(*self, PStatus::Stopped)
    }
}

/// The descriptor of a task, which outlives the program while the task is not over.
#[derive(Debug)]
pub struct PDesc<P> {
    pub task_id: u32,
    pub task_group: Option<String>,
    pub current: i64,
    pub total: i64,
    pub payload: P,
    pub status: PStatus,
}

/// What a change of a task calls for.
#[derive(Debug, PartialEq, Eq)]
pub enum HandleEffect {
    /// Save the descriptor.
    Persist,
    /// Remove the saved descriptor: a task that is over is not restored.
    RemoveSaved,
    /// Report that the task was stopped.
    ReportStopped,
    /// Report that the task runs, with its total.
    ReportStarted { total: i64 },
    /// Report that the task was cancelled.
    ReportCancelled,
    /// Report that the task is completed.
    ReportCompletion,
    /// Report that the task failed.
    ReportFailed { reason: String },
    /// Report how far the task has come.
    ReportProgress { current: i64 },
    /// Tell the reporter the total.
    SetReportedTotal { total: i64 },
    /// Wake what waits for the task.
    Wake,
}

/// The handle of a task: its descriptor, and whether something waits for it to go on.
#[derive(Debug)]
pub struct PHandle<P> {
    pub desc: PDesc<P>,
    pub waiting: bool,
}

/// Whether a descriptor is saved once effects have been carried out, given whether one was before.
pub open spec fn saved_after(effects: Seq<HandleEffect>, before: bool) -> bool
    decreases effects.len(),
{
    if effects.len() == 0 {
        before
    } else {
        match effects.last() {
            HandleEffect::Persist => true,
            HandleEffect::RemoveSaved => false,
            _ => saved_after(effects.drop_last(), before),
        }
    }
}

/// The effects of the end of a task: it is saved as it ended, what was saved is removed, and the
/// end is reported.
pub open spec fn end_effects(report: HandleEffect) -> Seq<HandleEffect> {
    seq![HandleEffect::Persist, HandleEffect::RemoveSaved, report]
}

/// A task that is over leaves nothing behind from which it would be restored.
pub proof fn ended_tasks_are_not_restored(report: HandleEffect, before: bool)
    requires
        !(report is Persist),
    ensures
        !saved_after(end_effects(report), before),
{
    let effects = end_effects(report);
    assert(effects.drop_last() =~= seq![HandleEffect::Persist, HandleEffect::RemoveSaved]);
    reveal_with_fuel(saved_after, 3);
}

/// A descriptor is saved once it was saved last, and not once it was removed last; no other effect
/// changes that.
pub proof fn the_last_save_counts(effects: Seq<HandleEffect>, effect: HandleEffect, before: bool)
    ensures
        saved_after(effects.push(HandleEffect::Persist), before),
        !saved_after(effects.push(HandleEffect::RemoveSaved), before),
        !(effect is Persist) && !(effect is RemoveSaved) ==> saved_after(effects.push(effect), before)
            == saved_after(effects, before),
        saved_after(Seq::<HandleEffect>::empty(), before) == before,
{
    assert(effects.push(effect).drop_last() =~= effects);
}

/// A new status is the status of the task, a new progress its progress, and nothing else of its handle
/// changes.
pub proof fn handles_keep_everything_else<P>(h: PHandle<P>, status: PStatus, current: i64)
    ensures
        h.with_status(status).desc.status == status,
        h.with_status(status).with_status(h.desc.status) == h,
        h.with_status(status).desc.current == h.desc.current,
        h.with_status(status).desc.total == h.desc.total,
        h.with_status(status).desc.payload == h.desc.payload,
        h.with_status(status).desc.task_id == h.desc.task_id,
        h.with_status(status).waiting == h.waiting,
        h.with_current(current).desc.current == current,
        h.with_current(current).with_current(h.desc.current) == h,
        h.with_current(current).desc.status == h.desc.status,
        h.with_current(current).desc.total == h.desc.total,
        h.with_current(current).desc.payload == h.desc.payload,
        h.with_current(current).desc.task_id == h.desc.task_id,
        h.with_current(current).waiting == h.waiting,
{
}

/// The end of a task is saved, then nothing of it is kept, and then it is reported.
pub proof fn ends_are_saved_removed_and_reported(report: HandleEffect)
    ensures
        end_effects(report).len() == 3,
        end_effects(report)[0] is Persist,
        end_effects(report)[1] is RemoveSaved,
        end_effects(report)[2] == report,
{
}

impl<P> PHandle<P> {
    /// The handle with another status.
    pub open spec fn with_status(self, status: PStatus) -> PHandle<P> {
        PHandle { desc: PDesc { status, ..self.desc }, ..self }
    }

    /// The handle with another progress.
    pub open spec fn with_current(self, current: i64) -> PHandle<P> {
        PHandle { desc: PDesc { current, ..self.desc }, ..self }
    }

    /// The handle of a task.
    pub fn new(desc: PDesc<P>) -> (r: Self)
        ensures
            r == (PHandle { desc, waiting: false }),
    {
        PHandle { desc, waiting: false }
    }

    /// Stops the task.
    pub fn mark_stopped(&mut self) -> (r: Vec<HandleEffect>)
        ensures
            *final(self) == old(self).with_status(PStatus::Stopped),
            r@ == seq![HandleEffect::Persist, HandleEffect::ReportStopped],
    {
        self.desc.status = PStatus::Stopped;
        vec![HandleEffect::Persist, HandleEffect::ReportStopped]
    }

    /// Lets the task go on, and wakes what waits for it.
    pub fn mark_resumed(&mut self) -> (r: Vec<HandleEffect>)
        ensures
            *final(self) == (PHandle {
                waiting: false,
                ..old(self).with_status(PStatus::InProgress)
            }),
            r@ == (if old(self).waiting {
                seq![
                    HandleEffect::Persist,
                    HandleEffect::ReportStarted { total: old(self).desc.total },
                    HandleEffect::Wake,
                ]
            } else {
                seq![
                    HandleEffect::Persist,
                    HandleEffect::ReportStarted { total: old(self).desc.total },
                ]
            }),
    {
        self.desc.status = PStatus::InProgress;
        let mut effects = vec![
            HandleEffect::Persist,
            HandleEffect::ReportStarted { total: self.desc.total },
        ];
        if self.waiting {
            self.waiting = false;
            effects.push(HandleEffect::Wake);
        }
        effects
    }

    /// Cancels the task, once.
    pub fn mark_cancelled(&mut self) -> (r: Vec<HandleEffect>)
        ensures
            *final(self) == old(self).with_status(PStatus::Cancelled),
            r@ == (if old(self).desc.status == PStatus::Cancelled {
                seq![]
            } else {
                end_effects(HandleEffect::ReportCancelled)
            }),
    {
        if self.desc.status.is_cancelled() {
            return Vec::new();
        }
        self.desc.status = PStatus::Cancelled;
        vec![HandleEffect::Persist, HandleEffect::RemoveSaved, HandleEffect::ReportCancelled]
    }

    /// Marks the task as completed.
    pub fn mark_completed(&mut self) -> (r: Vec<HandleEffect>)
        ensures
            *final(self) == old(self).with_status(PStatus::Completed),
            r@ == end_effects(HandleEffect::ReportCompletion),
    {
        self.desc.status = PStatus::Completed;
        vec![HandleEffect::Persist, HandleEffect::RemoveSaved, HandleEffect::ReportCompletion]
    }

    /// Marks the task as running.
    pub fn mark_started(&mut self) -> (r: Vec<HandleEffect>)
        ensures
            *final(self) == old(self).with_status(PStatus::InProgress),
            r@ == seq![
                HandleEffect::Persist,
                HandleEffect::ReportStarted { total: old(self).desc.total },
            ],
    {
        self.desc.status = PStatus::InProgress;
        vec![HandleEffect::Persist, HandleEffect::ReportStarted { total: self.desc.total }]
    }

    /// Marks the task as failed, unless it was cancelled or is completed.
    pub fn mark_failed(&mut self, reason: String) -> (r: Vec<HandleEffect>)
        ensures
            old(self).desc.status == PStatus::Cancelled || old(self).desc.status
                == PStatus::Completed ==> *final(self) == *old(self) && r@.len() == 0,
            old(self).desc.status != PStatus::Cancelled && old(self).desc.status
                != PStatus::Completed ==> *final(self) == old(self).with_status(PStatus::Failed)
                && r@ == end_effects(HandleEffect::ReportFailed { reason }),
    {
        if self.desc.status.is_cancelled() || self.desc.status.is_completed() {
            return Vec::new();
        }
        self.desc.status = PStatus::Failed;
        vec![
            HandleEffect::Persist,
            HandleEffect::RemoveSaved,
            HandleEffect::ReportFailed { reason },
        ]
    }

    /// How the task stands.
    pub fn status(&self) -> (r: &PStatus)
        ensures
            *r == self.desc.status,
    {
        &self.desc.status
    }

    /// Notes that something waits for the task to go on.
    pub fn store_waker(&mut self)
        ensures
            *final(self) == (PHandle { waiting: true, ..*old(self) }),
    {
        self.waiting = true;
    }

    /// Raises the total; it is never lowered.
    pub fn set_total(&mut self, total: i64) -> (r: Vec<HandleEffect>)
        ensures
            total > old(self).desc.total ==> *final(self) == (PHandle {
                desc: PDesc { total, ..old(self).desc },
                ..*old(self)
            }) && r@ == seq![HandleEffect::Persist, HandleEffect::SetReportedTotal { total }],
            total <= old(self).desc.total ==> *final(self) == *old(self) && r@.len() == 0,
    {
        if total > self.desc.total {
            self.desc.total = total;
            vec![HandleEffect::Persist, HandleEffect::SetReportedTotal { total }]
        } else {
            Vec::new()
        }
    }

    /// Adds to the progress, and reports it where a report is due.
    pub fn report_progress(&mut self, incr: i64, due: bool) -> (r: Vec<HandleEffect>)
        requires
            i64::MIN <= old(self).desc.current + incr <= i64::MAX,
        ensures
            *final(self) == old(self).with_current((old(self).desc.current + incr) as i64),
            r@ == (if due {
                seq![
                    HandleEffect::Persist,
                    HandleEffect::ReportProgress { current: final(self).desc.current },
                ]
            } else {
                seq![]
            }),
    {
        self.desc.current = self.desc.current + incr;
        if due {
            vec![
                HandleEffect::Persist,
                HandleEffect::ReportProgress { current: self.desc.current },
            ]
        } else {
            Vec::new()
        }
    }

    /// Adds to the progress and reports it at once. Nothing happens without an increase.
    pub fn report_progress_now(&mut self, incr: i64) -> (r: Vec<HandleEffect>)
        requires
            old(self).desc.current + incr <= i64::MAX,
        ensures
            incr <= 0 ==> *final(self) == *old(self) && r@.len() == 0,
            incr > 0 ==> *final(self) == old(self).with_current(
                (old(self).desc.current + incr) as i64,
            ) && r@ == seq![
                HandleEffect::Persist,
                HandleEffect::ReportProgress { current: final(self).desc.current },
            ],
    {
        if incr <= 0 {
            return Vec::new();
        }
        self.desc.current = self.desc.current + incr;
        vec![HandleEffect::Persist, HandleEffect::ReportProgress { current: self.desc.current }]
    }

    /// Sets the progress to what is there; it is never below zero.
    pub fn set_current(&mut self, current: i64) -> (r: Vec<HandleEffect>)
        ensures
            *final(self) == old(self).with_current(
                if current > 0 {
                    current
                } else {
                    0
                },
            ),
            r@ == seq![
                HandleEffect::Persist,
                HandleEffect::ReportProgress { current: final(self).desc.current },
            ],
    {
        self.desc.current = if current > 0 {
            current
        } else {
            0
        };
        vec![HandleEffect::Persist, HandleEffect::ReportProgress { current: self.desc.current }]
    }

    /// The handle of a task that is taken up again: it waits, from zero if it begins anew.
    pub fn taken_up(desc: PDesc<P>, reset: bool) -> (r: Self)
        ensures
            r == (PHandle {
                desc: PDesc {
                    status: PStatus::Waiting,
                    current: if reset {
                        0
                    } else {
                        desc.current
                    },
                    ..desc
                },
                waiting: false,
            }),
    {
        let mut desc = desc;
        desc.status = PStatus::Waiting;
        if reset {
            desc.current = 0;
        }
        PHandle { desc, waiting: false }
    }
}

} // verus!
