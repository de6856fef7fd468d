//! One worker's whole task: fingerprint inputs, replay a cache hit, run the
//! task, and refresh the cache entry.

use vstd::prelude::*;

use crate::cache::error::{CacheError, CacheFault};
use crate::io::{IoError, IoErrorView};
use crate::project::planned::{PlannedTask, PlannedTaskView};
use crate::runner::error::{outcome_view, RunnerError, RunnerFault, TaskResult, TaskResultView};
use crate::text::optional_text;
use crate::time::Duration;

verus! {

/// One worker's report to the scheduling loop.
#[derive(Debug)]
pub enum WorkerReport {
    /// The worker finished, with either a task result or a runner failure.
    /// `cache_error` records a successful run whose cache entry could not be
    /// written; it is `None` when `result` itself is an error.
    Finished {
        result: Result<TaskResult, RunnerError>,
        key: Option<String>,
        cache_error: Option<CacheError>,
    },
    /// Cache state could not be computed or read, so the task never started.
    CacheFailed(CacheError),
    /// The output renderer failed before the task attempt could start.
    OutputFailed(IoError),
}

/// What a report says.
pub enum ReportView {
    Finished {
        result: Result<TaskResultView, RunnerFault>,
        key: Option<Seq<char>>,
        cache_error: Option<CacheFault>,
    },
    CacheFailed(CacheFault),
    OutputFailed(IoErrorView),
}

/// The view of an optional cache failure.
pub open spec fn optional_fault(error: Option<CacheError>) -> Option<CacheFault> {
    match error {
        Some(e) => Some(e@),
        None => None,
    }
}

impl View for WorkerReport {
    type V = ReportView;

    open spec fn view(&self) -> ReportView {
        match *self {
            WorkerReport::Finished { result, key, cache_error } => ReportView::Finished {
                result: outcome_view(result),
                key: optional_text(key),
                cache_error: optional_fault(cache_error),
            },
            WorkerReport::CacheFailed(error) => ReportView::CacheFailed(error@),
            WorkerReport::OutputFailed(error) => ReportView::OutputFailed(error@),
        }
    }
}

/// How far a worker has come.
#[derive(Debug)]
pub enum WorkPhase {
    Fresh,
    /// The cache key is being computed.
    Keying,
    /// The cache entry is being looked up.
    LookingUp { key: String },
    /// An attempt is being announced.
    Announcing { key: Option<String>, attempt: u32 },
    /// An attempt runs.
    Running { key: Option<String>, attempt: u32 },
    /// The worker waits before the next attempt.
    Pausing { key: Option<String>, attempt: u32 },
    /// The cache entry is being written.
    Storing { key: String, result: TaskResult },
    Done,
}

/// What a phase says.
pub enum WorkPhaseView {
    Fresh,
    Keying,
    LookingUp { key: Seq<char> },
    Announcing { key: Option<Seq<char>>, attempt: u32 },
    Running { key: Option<Seq<char>>, attempt: u32 },
    Pausing { key: Option<Seq<char>>, attempt: u32 },
    Storing { key: Seq<char>, result: TaskResultView },
    Done,
}

impl View for WorkPhase {
    type V = WorkPhaseView;

    open spec fn view(&self) -> WorkPhaseView {
        match *self {
            WorkPhase::Fresh => WorkPhaseView::Fresh,
            WorkPhase::Keying => WorkPhaseView::Keying,
            WorkPhase::LookingUp { key } => WorkPhaseView::LookingUp { key: key@ },
            WorkPhase::Announcing { key, attempt } => WorkPhaseView::Announcing {
                key: optional_text(key),
                attempt,
            },
            WorkPhase::Running { key, attempt } => WorkPhaseView::Running {
                key: optional_text(key),
                attempt,
            },
            WorkPhase::Pausing { key, attempt } => WorkPhaseView::Pausing {
                key: optional_text(key),
                attempt,
            },
            WorkPhase::Storing { key, result } => WorkPhaseView::Storing {
                key: key@,
                result: result@,
            },
            WorkPhase::Done => WorkPhaseView::Done,
        }
    }
}

/// What happened.
#[derive(Debug)]
pub enum WorkEvent {
    Begin,
    Keyed(Result<String, CacheError>),
    LookedUp(Result<Option<TaskResult>, CacheError>),
    Announced(Result<(), IoError>),
    Executed(Result<TaskResult, RunnerError>),
    Slept,
    Stored(Result<(), CacheError>),
}

/// What to do next.
#[derive(Debug)]
pub enum WorkAction {
    ComputeKey,
    LookUp,
    /// Announce an attempt, of at most so many.
    Announce { attempt: u32, max_attempts: u32 },
    Execute,
    Sleep(Duration),
    /// Write the result under the key; `refresh` says that an entry that is
    /// there already gives way.
    Store { refresh: bool },
    Report(WorkerReport),
}

/// What an action says.
pub enum WorkActionView {
    ComputeKey,
    LookUp,
    Announce { attempt: u32, max_attempts: u32 },
    Execute,
    Sleep(Duration),
    Store { refresh: bool },
    Report(ReportView),
}

impl View for WorkAction {
    type V = WorkActionView;

    open spec fn view(&self) -> WorkActionView {
        match *self {
            WorkAction::ComputeKey => WorkActionView::ComputeKey,
            WorkAction::LookUp => WorkActionView::LookUp,
            WorkAction::Announce { attempt, max_attempts } => WorkActionView::Announce {
                attempt,
                max_attempts,
            },
            WorkAction::Execute => WorkActionView::Execute,
            WorkAction::Sleep(pause) => WorkActionView::Sleep(pause),
            WorkAction::Store { refresh } => WorkActionView::Store { refresh },
            WorkAction::Report(report) => WorkActionView::Report(report@),
        }
    }
}

/// Whether `event` can happen in `phase`.
pub open spec fn work_expects(phase: WorkPhaseView, event: WorkEvent) -> bool {
    match phase {
        WorkPhaseView::Fresh => event is Begin,
        WorkPhaseView::Keying => event is Keyed,
        WorkPhaseView::LookingUp { .. } => event is LookedUp,
        WorkPhaseView::Announcing { .. } => event is Announced,
        WorkPhaseView::Running { .. } => event is Executed,
        WorkPhaseView::Pausing { .. } => event is Slept,
        WorkPhaseView::Storing { .. } => event is Stored,
        WorkPhaseView::Done => false,
    }
}

/// The most attempts that a task gets.
pub open spec fn max_attempts(retries: u32) -> u32 {
    if retries < u32::MAX {
        (retries + 1) as u32
    } else {
        u32::MAX
    }
}

/// Announce attempt number `attempt`, counted from zero.
pub open spec fn announce(retries: u32, key: Option<Seq<char>>, attempt: u32) -> (
    WorkPhaseView,
    WorkActionView,
) {
    (
        WorkPhaseView::Announcing { key, attempt },
        WorkActionView::Announce {
            attempt: (attempt + 1) as u32,
            max_attempts: max_attempts(retries),
        },
    )
}

/// The end of a worker's task.
pub open spec fn report(report: ReportView) -> (WorkPhaseView, WorkActionView) {
    (WorkPhaseView::Done, WorkActionView::Report(report))
}

/// The next phase and action after `event` in `phase`.
pub open spec fn next_work(
    task: PlannedTaskView,
    can_cache: bool,
    force: bool,
    phase: WorkPhaseView,
    event: WorkEvent,
) -> (WorkPhaseView, WorkActionView) {
    match (phase, event) {
        (WorkPhaseView::Fresh, WorkEvent::Begin) => if can_cache {
            (WorkPhaseView::Keying, WorkActionView::ComputeKey)
        } else {
            announce(task.retries, None, 0)
        },
        (WorkPhaseView::Keying, WorkEvent::Keyed(Err(error))) => report(
            ReportView::CacheFailed(error@),
        ),
        (WorkPhaseView::Keying, WorkEvent::Keyed(Ok(key))) => if force {
            announce(task.retries, Some(key@), 0)
        } else {
            (WorkPhaseView::LookingUp { key: key@ }, WorkActionView::LookUp)
        },
        (WorkPhaseView::LookingUp { key }, WorkEvent::LookedUp(Err(error))) => report(
            ReportView::CacheFailed(error@),
        ),
        (WorkPhaseView::LookingUp { key }, WorkEvent::LookedUp(Ok(Some(hit)))) => report(
            ReportView::Finished { result: Ok(hit@), key: Some(key), cache_error: None },
        ),
        (WorkPhaseView::LookingUp { key }, WorkEvent::LookedUp(Ok(None))) => announce(
            task.retries,
            Some(key),
            0,
        ),
        (WorkPhaseView::Announcing { .. }, WorkEvent::Announced(Err(error))) => report(
            ReportView::OutputFailed(error@),
        ),
        (WorkPhaseView::Announcing { key, attempt }, WorkEvent::Announced(Ok(_))) => (
            WorkPhaseView::Running { key, attempt },
            WorkActionView::Execute,
        ),
        (WorkPhaseView::Running { key, attempt }, WorkEvent::Executed(Ok(result))) => match key {
            Some(key) => (
                WorkPhaseView::Storing { key, result: result@ },
                WorkActionView::Store { refresh: force },
            ),
            None => report(
                ReportView::Finished { result: Ok(result@), key: None, cache_error: None },
            ),
        },
        (WorkPhaseView::Running { key, attempt }, WorkEvent::Executed(Err(error))) => if attempt
            < task.retries {
            if task.retry_backoff.nanos > 0 {
                (
                    WorkPhaseView::Pausing { key, attempt: (attempt + 1) as u32 },
                    WorkActionView::Sleep(task.retry_backoff),
                )
            } else {
                announce(task.retries, key, (attempt + 1) as u32)
            }
        } else {
            report(ReportView::Finished { result: Err(error@), key, cache_error: None })
        },
        (WorkPhaseView::Pausing { key, attempt }, WorkEvent::Slept) => announce(
            task.retries,
            key,
            attempt,
        ),
        (WorkPhaseView::Storing { key, result }, WorkEvent::Stored(outcome)) => report(
            ReportView::Finished {
                result: Ok(result),
                key: Some(key),
                cache_error: match outcome {
                    Err(error) => Some(error@),
                    Ok(_) => None,
                },
            },
        ),
        _ => (phase, WorkActionView::Execute),
    }
}

/// The attempt of a phase, counted from zero.
pub open spec fn attempt_of(phase: WorkPhaseView) -> Option<u32> {
    match phase {
        WorkPhaseView::Announcing { attempt, .. } => Some(attempt),
        WorkPhaseView::Running { attempt, .. } => Some(attempt),
        WorkPhaseView::Pausing { attempt, .. } => Some(attempt),
        _ => None,
    }
}

/// One worker's task.
#[derive(Debug)]
pub struct Worker {
    pub task: PlannedTask,
    pub can_cache: bool,
    pub force: bool,
    pub phase: WorkPhase,
}

impl Worker {
    /// No attempt is counted beyond the retries of the task, and only a task
    /// that may use the cache has a key.
    pub open spec fn wf(self) -> bool {
        &&& attempt_of(self.phase@) matches Some(attempt) ==> attempt <= self.task.retries
        &&& !self.can_cache ==> match self.phase@ {
            WorkPhaseView::Announcing { key, .. } => key is None,
            WorkPhaseView::Running { key, .. } => key is None,
            WorkPhaseView::Pausing { key, .. } => key is None,
            WorkPhaseView::Fresh => true,
            WorkPhaseView::Done => true,
            _ => false,
        }
        &&& self.can_cache ==> match self.phase@ {
            WorkPhaseView::Announcing { key, .. } => key is Some,
            WorkPhaseView::Running { key, .. } => key is Some,
            WorkPhaseView::Pausing { key, .. } => key is Some,
            _ => true,
        }
    }

    pub fn new(task: PlannedTask, can_cache: bool, force: bool) -> (r: Worker)
        ensures
            r.wf(),
            r.task == task,
            r.can_cache == can_cache,
            r.force == force,
            r.phase@ == WorkPhaseView::Fresh,
    {
        Worker { task, can_cache, force, phase: WorkPhase::Fresh }
    }

    fn announce(&self, key: Option<String>, attempt: u32) -> (r: (WorkPhase, WorkAction))
        requires
            attempt <= self.task.retries,
            attempt < u32::MAX,
        ensures
            (r.0@, r.1@) == announce(self.task.retries, optional_text(key), attempt),
    {
        let most: u32 = if self.task.retries < u32::MAX {
            self.task.retries + 1
        } else {
            u32::MAX
        };
        (
            WorkPhase::Announcing { key, attempt },
            WorkAction::Announce { attempt: attempt + 1, max_attempts: most },
        )
    }

    /// Take note of what happened, and say what to do next.
    pub fn execute_task(&mut self, event: WorkEvent) -> (r: WorkAction)
        requires
            old(self).wf(),
            work_expects(old(self).phase@, event),
            old(self).task.retries < u32::MAX || (attempt_of(old(self).phase@) matches Some(attempt)
                ==> attempt < u32::MAX - 1),
        ensures
            final(self).wf(),
            final(self).task == old(self).task,
            final(self).can_cache == old(self).can_cache,
            final(self).force == old(self).force,
            (final(self).phase@, r@) == next_work(
                old(self).task@,
                old(self).can_cache,
                old(self).force,
                old(self).phase@,
                event,
            ),
            r matches WorkAction::Report(WorkerReport::Finished { key, .. }) ==> key is Some
                == old(self).can_cache,
    {
        let mut phase = WorkPhase::Done;
        core::mem::swap(&mut phase, &mut self.phase);
        let (next, action): (WorkPhase, WorkAction) = match (phase, event) {
            (WorkPhase::Fresh, WorkEvent::Begin) => {
                if self.can_cache {
                    (WorkPhase::Keying, WorkAction::ComputeKey)
                } else {
                    self.announce(None, 0)
                }
            },
            (WorkPhase::Keying, WorkEvent::Keyed(outcome)) => {
                match outcome {
                    Err(error) => (
                        WorkPhase::Done,
                        WorkAction::Report(WorkerReport::CacheFailed(error)),
                    ),
                    Ok(key) => {
                        if self.force {
                            self.announce(Some(key), 0)
                        } else {
                            (WorkPhase::LookingUp { key }, WorkAction::LookUp)
                        }
                    },
                }
            },
            (WorkPhase::LookingUp { key }, WorkEvent::LookedUp(outcome)) => {
                match outcome {
                    Err(error) => (
                        WorkPhase::Done,
                        WorkAction::Report(WorkerReport::CacheFailed(error)),
                    ),
                    Ok(Some(hit)) => (
                        WorkPhase::Done,
                        WorkAction::Report(
                            WorkerReport::Finished {
                                result: Ok(hit),
                                key: Some(key),
                                cache_error: None,
                            },
                        ),
                    ),
                    Ok(None) => self.announce(Some(key), 0),
                }
            },
            (WorkPhase::Announcing { key, attempt }, WorkEvent::Announced(outcome)) => {
                match outcome {
                    Err(error) => (
                        WorkPhase::Done,
                        WorkAction::Report(WorkerReport::OutputFailed(error)),
                    ),
                    Ok(_) => (WorkPhase::Running { key, attempt }, WorkAction::Execute),
                }
            },
            (WorkPhase::Running { key, attempt }, WorkEvent::Executed(outcome)) => {
                match outcome {
                    Ok(result) => match key {
                        Some(key) => (
                            WorkPhase::Storing { key, result },
                            WorkAction::Store { refresh: self.force },
                        ),
                        None => (
                            WorkPhase::Done,
                            WorkAction::Report(
                                WorkerReport::Finished {
                                    result: Ok(result),
                                    key: None,
                                    cache_error: None,
                                },
                            ),
                        ),
                    },
                    Err(error) => {
                        if attempt < self.task.retries {
                            if self.task.retry_backoff.nanos > 0 {
                                (
                                    WorkPhase::Pausing { key, attempt: attempt + 1 },
                                    WorkAction::Sleep(self.task.retry_backoff),
                                )
                            } else {
                                self.announce(key, attempt + 1)
                            }
                        } else {
                            (
                                WorkPhase::Done,
                                WorkAction::Report(
                                    WorkerReport::Finished {
                                        result: Err(error),
                                        key,
                                        cache_error: None,
                                    },
                                ),
                            )
                        }
                    },
                }
            },
            (WorkPhase::Pausing { key, attempt }, WorkEvent::Slept) => self.announce(key, attempt),
            (WorkPhase::Storing { key, result }, WorkEvent::Stored(outcome)) => {
                let cache_error: Option<CacheError> = match outcome {
                    Err(error) => Some(error),
                    Ok(_) => None,
                };
                (
                    WorkPhase::Done,
                    WorkAction::Report(
                        WorkerReport::Finished {
                            result: Ok(result),
                            key: Some(key),
                            cache_error,
                        },
                    ),
                )
            },
            (phase, _) => (phase, WorkAction::Execute),
        };
        self.phase = next;
        action
    }
}

/// A task is executed only after its attempt was announced, and a failed
/// attempt is repeated exactly while retries are left.
pub proof fn law_retries_are_bounded(
    task: PlannedTaskView,
    can_cache: bool,
    force: bool,
    phase: WorkPhaseView,
    error: RunnerError,
)
    requires
        phase is Running,
    ensures
        ({
            let (next, action) = next_work(
                task,
                can_cache,
                force,
                phase,
                WorkEvent::Executed(Err(error)),
            );
            let attempt = attempt_of(phase)->0;
            if attempt < task.retries {
                attempt_of(next) == Some((attempt + 1) as u32)
            } else {
                action matches WorkActionView::Report(
                    ReportView::Finished { result: Err(fault), .. },
                ) && fault == error@
            }
        }),
{
}

} // verus!
