//! One task process from start to end, as a machine that is told what happened
//! and says what to do next.

use vstd::prelude::*;

use crate::config::StdinMode;
use crate::io::{IoError, IoErrorView};
use crate::map::TextMap;
use crate::path::{absolute, below, is_absolute, is_below};
use crate::project::planned::{PlannedTask, PlannedTaskView};
use crate::runner::error::{outcome_view, CancelledTask, FailedTask, OutputLimitTask, RunnerError};
use crate::runner::error::{RunnerFault, TaskResult, TaskResultView, TimedOutTask};
use crate::runner::poll::{decided, longer_interval, next_poll_interval, poll_decision, PollDecision};
use crate::runner::poll::{ProcessExit, TerminationReason, WaitOutcome, POLL_INTERVAL_START};
use crate::runner::stream::{CapturedOutput, CapturedView, StreamCapture};
use crate::text::copy_texts;
use crate::time::Duration;

verus! {

/// Why a task that is still running is stopped.
#[derive(Debug, Clone, Copy, PartialEq, Eq)]
pub enum Stop {
    Cancelled,
    OutputLimit(&'static str),
    TimedOut,
}

/// What one non-blocking wait for the child observed.
#[derive(Debug, Clone, PartialEq, Eq)]
pub enum WaitReport {
    Running,
    Exited(ProcessExit),
    Failed(IoError),
}

/// How far a task has come.
#[derive(Debug, Clone, PartialEq, Eq)]
pub enum RunPhase {
    /// Nothing has been done yet.
    Fresh,
    /// The process is being started.
    Spawning,
    /// The process runs; `exceeded` names the stream that went over its limit.
    Polling { interval: Duration, exceeded: Option<&'static str> },
    /// The process has exited, but descendants hold its pipes.
    Cleaning { exit: ProcessExit },
    /// The process has exited and its output is being collected.
    Settling { exit: ProcessExit },
    /// The process tree is being terminated.
    Stopping { stop: Stop },
    /// The terminated process is being waited for.
    Reaping { stop: Stop },
    /// The output of the terminated process is being collected.
    Collecting { stop: Stop, wait_failure: Option<IoError> },
    /// The wait failed, and the process tree is being terminated.
    FailingWait { source: IoError },
    /// The readers are waited for before the error is reported.
    Draining { error: RunnerError },
    /// The outcome has been reported.
    Done,
}

/// What happened.
#[derive(Debug, PartialEq, Eq)]
pub enum RunEvent {
    Begin { cancelled: bool },
    Spawned(Result<(), IoError>),
    Polled {
        limit_hit: Option<&'static str>,
        cancelled: bool,
        wait: WaitReport,
        readers_done: u8,
        elapsed: Duration,
    },
    Slept,
    Terminated(Result<(), IoError>),
    Reaped(Result<ProcessExit, IoError>),
    Joined {
        stdout: Result<StreamCapture, IoError>,
        stderr: Result<StreamCapture, IoError>,
        elapsed: Duration,
    },
}

/// What to do next.
#[derive(Debug, PartialEq, Eq)]
pub enum RunAction {
    Spawn,
    Poll,
    Sleep(Duration),
    Terminate(TerminationReason),
    Reap,
    Join,
    Finish(Result<TaskResult, RunnerError>),
}

/// What a phase says.
pub enum PhaseView {
    Fresh,
    Spawning,
    Polling { interval: Duration, exceeded: Option<&'static str> },
    Cleaning { exit: ProcessExit },
    Settling { exit: ProcessExit },
    Stopping { stop: Stop },
    Reaping { stop: Stop },
    Collecting { stop: Stop, wait_failure: Option<IoErrorView> },
    FailingWait { source: IoErrorView },
    Draining { error: RunnerFault },
    Done,
}

impl View for RunPhase {
    type V = PhaseView;

    open spec fn view(&self) -> PhaseView {
        match *self {
            RunPhase::Fresh => PhaseView::Fresh,
            RunPhase::Spawning => PhaseView::Spawning,
            RunPhase::Polling { interval, exceeded } => PhaseView::Polling { interval, exceeded },
            RunPhase::Cleaning { exit } => PhaseView::Cleaning { exit },
            RunPhase::Settling { exit } => PhaseView::Settling { exit },
            RunPhase::Stopping { stop } => PhaseView::Stopping { stop },
            RunPhase::Reaping { stop } => PhaseView::Reaping { stop },
            RunPhase::Collecting { stop, wait_failure } => PhaseView::Collecting {
                stop,
                wait_failure: match wait_failure {
                    Some(source) => Some(source@),
                    None => None,
                },
            },
            RunPhase::FailingWait { source } => PhaseView::FailingWait { source: source@ },
            RunPhase::Draining { error } => PhaseView::Draining { error: error@ },
            RunPhase::Done => PhaseView::Done,
        }
    }
}

/// What an action says.
pub enum ActionView {
    Spawn,
    Poll,
    Sleep(Duration),
    Terminate(TerminationReason),
    Reap,
    Join,
    Finish(Result<TaskResultView, RunnerFault>),
}

impl View for RunAction {
    type V = ActionView;

    open spec fn view(&self) -> ActionView {
        match *self {
            RunAction::Spawn => ActionView::Spawn,
            RunAction::Poll => ActionView::Poll,
            RunAction::Sleep(pause) => ActionView::Sleep(pause),
            RunAction::Terminate(reason) => ActionView::Terminate(reason),
            RunAction::Reap => ActionView::Reap,
            RunAction::Join => ActionView::Join,
            RunAction::Finish(outcome) => ActionView::Finish(outcome_view(outcome)),
        }
    }
}

/// Whether a planned task may be run at all.
pub open spec fn is_runnable(task: PlannedTaskView) -> bool {
    &&& task.timeout.nanos > 0
    &&& task.max_output_bytes > 0
    &&& is_absolute(task.cwd)
    &&& is_below(task.cwd, task.root)
}

/// Whether a planned task may be run at all.
pub fn runnable(task: &PlannedTask) -> (r: bool)
    ensures
        r == is_runnable(task@),
{
    task.timeout.nanos > 0 && task.max_output_bytes > 0 && absolute(task.cwd.as_str()) && below(
        task.cwd.as_str(),
        task.root.as_str(),
    )
}

/// Whether `event` can happen in `phase`.
pub open spec fn expects(phase: PhaseView, event: RunEvent) -> bool {
    match phase {
        PhaseView::Fresh => event is Begin,
        PhaseView::Spawning => event is Spawned,
        PhaseView::Polling { .. } => event is Polled || event is Slept,
        PhaseView::Cleaning { .. } => event is Terminated,
        PhaseView::Stopping { .. } => event is Terminated,
        PhaseView::FailingWait { .. } => event is Terminated,
        PhaseView::Reaping { .. } => event is Reaped,
        PhaseView::Settling { .. } => event is Joined,
        PhaseView::Collecting { .. } => event is Joined,
        PhaseView::Draining { .. } => event is Joined,
        PhaseView::Done => false,
    }
}

pub open spec fn reason_of(stop: Stop) -> TerminationReason {
    match stop {
        Stop::Cancelled => TerminationReason::Cancellation,
        Stop::OutputLimit(_) => TerminationReason::OutputLimit,
        Stop::TimedOut => TerminationReason::Timeout,
    }
}

pub open spec fn terminate_fault(
    task: PlannedTaskView,
    reason: TerminationReason,
    source: IoErrorView,
) -> RunnerFault {
    RunnerFault::Terminate { project: task.project, task: task.id, reason, source }
}

pub open spec fn wait_fault(task: PlannedTaskView, source: IoErrorView) -> RunnerFault {
    RunnerFault::Wait { project: task.project, task: task.id, source }
}

/// The output of both streams; the first stream that could not be read decides
/// the failure.
pub open spec fn joined_output(
    task: PlannedTaskView,
    stdout: Result<StreamCapture, IoError>,
    stderr: Result<StreamCapture, IoError>,
) -> Result<CapturedView, RunnerFault> {
    match stdout {
        Err(source) => Err(
            RunnerFault::OutputRead {
                project: task.project,
                task: task.id,
                stream: "stdout"@,
                source: source@,
            },
        ),
        Ok(out) => match stderr {
            Err(source) => Err(
                RunnerFault::OutputRead {
                    project: task.project,
                    task: task.id,
                    stream: "stderr"@,
                    source: source@,
                },
            ),
            Ok(err) => Ok(CapturedView { stdout: out.bytes@, stderr: err.bytes@ }),
        },
    }
}

/// The fault of a task that was stopped.
pub open spec fn stopped_fault(
    task: PlannedTaskView,
    stop: Stop,
    output: CapturedView,
    elapsed: Duration,
) -> RunnerFault {
    match stop {
        Stop::Cancelled => RunnerFault::Cancelled {
            project: task.project,
            task: task.id,
            output,
            elapsed,
        },
        Stop::OutputLimit(stream) => limit_fault(task, stream@, output, elapsed),
        Stop::TimedOut => RunnerFault::TimedOut {
            project: task.project,
            task: task.id,
            command: task.command,
            cwd: task.cwd,
            timeout: task.timeout,
            output,
            elapsed,
        },
    }
}

pub open spec fn limit_fault(
    task: PlannedTaskView,
    stream: Seq<char>,
    output: CapturedView,
    elapsed: Duration,
) -> RunnerFault {
    RunnerFault::OutputLimit {
        project: task.project,
        task: task.id,
        stream,
        limit: task.max_output_bytes,
        output,
        elapsed,
    }
}

/// The outcome of a process that exited by itself.
pub open spec fn settled(
    task: PlannedTaskView,
    exit: ProcessExit,
    stdout: Result<StreamCapture, IoError>,
    stderr: Result<StreamCapture, IoError>,
    elapsed: Duration,
) -> Result<TaskResultView, RunnerFault> {
    match joined_output(task, stdout, stderr) {
        Err(fault) => Err(fault),
        Ok(output) => if stdout->Ok_0.exceeded {
            Err(limit_fault(task, "stdout"@, output, elapsed))
        } else if stderr->Ok_0.exceeded {
            Err(limit_fault(task, "stderr"@, output, elapsed))
        } else if !exit.success {
            Err(
                RunnerFault::Failed {
                    project: task.project,
                    task: task.id,
                    command: task.command,
                    cwd: task.cwd,
                    code: exit.code,
                    output,
                    elapsed,
                },
            )
        } else {
            Ok(TaskResultView { output, elapsed, cached: false })
        },
    }
}

/// The kind of a wait report.
pub open spec fn wait_outcome(wait: WaitReport) -> WaitOutcome {
    match wait {
        WaitReport::Running => WaitOutcome::Running,
        WaitReport::Exited(_) => WaitOutcome::Exited,
        WaitReport::Failed(_) => WaitOutcome::Failed,
    }
}

/// The reaction to one look at the running child.
pub open spec fn polled(
    task: PlannedTaskView,
    interval: Duration,
    exceeded: Option<&'static str>,
    cancelled: bool,
    wait: WaitReport,
    readers_done: u8,
    elapsed: Duration,
) -> (PhaseView, ActionView) {
    match decided(
        cancelled,
        exceeded,
        wait_outcome(wait),
        readers_done,
        elapsed,
        task.timeout,
        interval,
    ) {
        PollDecision::Cancel => (
            PhaseView::Stopping { stop: Stop::Cancelled },
            ActionView::Terminate(TerminationReason::Cancellation),
        ),
        PollDecision::OutputLimit(stream) => (
            PhaseView::Stopping { stop: Stop::OutputLimit(stream) },
            ActionView::Terminate(TerminationReason::OutputLimit),
        ),
        PollDecision::Exited { descendants_may_hold_pipes } => if descendants_may_hold_pipes {
            (
                PhaseView::Cleaning { exit: wait->Exited_0 },
                ActionView::Terminate(TerminationReason::DescendantCleanup),
            )
        } else {
            (PhaseView::Settling { exit: wait->Exited_0 }, ActionView::Join)
        },
        PollDecision::Timeout => (
            PhaseView::Stopping { stop: Stop::TimedOut },
            ActionView::Terminate(TerminationReason::Timeout),
        ),
        PollDecision::WaitFailed => (
            PhaseView::FailingWait { source: wait->Failed_0@ },
            ActionView::Terminate(TerminationReason::WaitFailure),
        ),
        PollDecision::Sleep(pause) => (
            PhaseView::Polling { interval: longer_interval(interval), exceeded },
            ActionView::Sleep(pause),
        ),
    }
}

/// The next phase and action after `event` in `phase`.
pub open spec fn next_step(task: PlannedTaskView, phase: PhaseView, event: RunEvent) -> (
    PhaseView,
    ActionView,
) {
    let fail = |fault: RunnerFault| (PhaseView::Done, ActionView::Finish(Err(fault)));
    match (phase, event) {
        (PhaseView::Fresh, RunEvent::Begin { cancelled }) => if cancelled {
            fail(
                RunnerFault::Cancelled {
                    project: task.project,
                    task: task.id,
                    output: CapturedView { stdout: seq![], stderr: seq![] },
                    elapsed: Duration { nanos: 0 },
                },
            )
        } else if task.command.len() == 0 {
            fail(RunnerFault::EmptyCommand { project: task.project, task: task.id })
        } else {
            (PhaseView::Spawning, ActionView::Spawn)
        },
        (PhaseView::Spawning, RunEvent::Spawned(Err(source))) => fail(
            RunnerFault::Spawn {
                project: task.project,
                task: task.id,
                command: task.command,
                cwd: task.cwd,
                source: source@,
            },
        ),
        (PhaseView::Spawning, RunEvent::Spawned(Ok(_))) => (
            PhaseView::Polling {
                interval: Duration { nanos: POLL_INTERVAL_START },
                exceeded: None,
            },
            ActionView::Poll,
        ),
        (
            PhaseView::Polling { interval, exceeded },
            RunEvent::Polled { limit_hit, cancelled, wait, readers_done, elapsed },
        ) => polled(
            task,
            interval,
            if exceeded is Some {
                exceeded
            } else {
                limit_hit
            },
            cancelled,
            wait,
            readers_done,
            elapsed,
        ),
        (PhaseView::Cleaning { exit }, RunEvent::Terminated(Err(source))) => fail(
            terminate_fault(task, TerminationReason::DescendantCleanup, source@),
        ),
        (PhaseView::Cleaning { exit }, RunEvent::Terminated(Ok(_))) => (
            PhaseView::Settling { exit },
            ActionView::Join,
        ),
        (PhaseView::Stopping { stop }, RunEvent::Terminated(Err(source))) => fail(
            terminate_fault(task, reason_of(stop), source@),
        ),
        (PhaseView::Stopping { stop }, RunEvent::Terminated(Ok(_))) => (
            PhaseView::Reaping { stop },
            ActionView::Reap,
        ),
        (PhaseView::FailingWait { source }, RunEvent::Terminated(result)) => (
            PhaseView::Draining {
                error: match result {
                    Err(failure) => terminate_fault(
                        task,
                        TerminationReason::WaitFailure,
                        failure@,
                    ),
                    Ok(_) => wait_fault(task, source),
                },
            },
            ActionView::Join,
        ),
        (PhaseView::Reaping { stop }, RunEvent::Reaped(result)) => (
            PhaseView::Collecting {
                stop,
                wait_failure: match result {
                    Err(source) => Some(source@),
                    Ok(_) => None,
                },
            },
            ActionView::Join,
        ),
        (
            PhaseView::Collecting { stop, wait_failure },
            RunEvent::Joined { stdout, stderr, elapsed },
        ) => match wait_failure {
            Some(source) => fail(wait_fault(task, source)),
            None => match joined_output(task, stdout, stderr) {
                Err(fault) => fail(fault),
                Ok(output) => fail(stopped_fault(task, stop, output, elapsed)),
            },
        },
        (PhaseView::Settling { exit }, RunEvent::Joined { stdout, stderr, elapsed }) => (
            PhaseView::Done,
            ActionView::Finish(settled(task, exit, stdout, stderr, elapsed)),
        ),
        (PhaseView::Draining { error }, RunEvent::Joined { .. }) => fail(error),
        _ => (phase, ActionView::Poll),
    }
}

/// A task is reported as successful only when its process exited with success
/// and neither stream was cut short.
pub proof fn law_success_needs_a_clean_exit(
    task: PlannedTaskView,
    phase: PhaseView,
    event: RunEvent,
)
    requires
        expects(phase, event),
        next_step(task, phase, event).1 matches ActionView::Finish(Ok(_)),
    ensures
        phase matches PhaseView::Settling { exit } && exit.success,
        event matches RunEvent::Joined { stdout: Ok(out), stderr: Ok(err), .. } && !out.exceeded
            && !err.exceeded,
{
}

/// A machine that has not finished expects something, whatever it was told.
pub proof fn law_every_step_leads_on(task: PlannedTaskView, phase: PhaseView, event: RunEvent)
    requires
        expects(phase, event),
    ensures
        next_step(task, phase, event).0 is Done <==> next_step(task, phase, event).1 is Finish,
{
}

/// The process that a task starts.
#[derive(Debug, Clone, PartialEq, Eq)]
pub struct ProcessSpec {
    pub program: String,
    pub args: Vec<String>,
    pub cwd: String,
    pub env: TextMap<String>,
    pub stdin: StdinMode,
}

/// One task process from start to end.
#[derive(Debug, Clone, PartialEq, Eq)]
pub struct Runner {
    pub task: PlannedTask,
    pub phase: RunPhase,
}

impl Runner {
    /// A task of which nothing has been done yet.
    pub fn new(task: PlannedTask) -> (r: Runner)
        requires
            is_runnable(task@),
        ensures
            r.task == task,
            r.phase@ == PhaseView::Fresh,
    {
        Runner { task, phase: RunPhase::Fresh }
    }

    /// The process to start.
    pub fn process_spec(&self) -> (r: ProcessSpec)
        requires
            self.task.command@.len() > 0,
        ensures
            r.program == self.task.command@[0],
            r.args@ == self.task.command@.skip(1),
            r.cwd == self.task.cwd,
            r.env@ == self.task.env@,
            r.stdin == self.task.stdin,
    {
        let mut args = copy_texts(&self.task.command);
        let program = args.remove(0);
        assert(args@ =~= self.task.command@.skip(1));
        ProcessSpec {
            program,
            args,
            cwd: self.task.cwd.clone(),
            env: self.task.env.copy(),
            stdin: self.task.stdin,
        }
    }

    fn terminate_error(&self, reason: TerminationReason, source: IoError) -> (r: RunnerError)
        ensures
            r@ == terminate_fault(self.task@, reason, source@),
    {
        RunnerError::Terminate {
            project: self.task.project.clone(),
            task: self.task.id.clone(),
            reason,
            source,
        }
    }

    fn wait_error(&self, source: IoError) -> (r: RunnerError)
        ensures
            r@ == wait_fault(self.task@, source@),
    {
        RunnerError::Wait {
            project: self.task.project.clone(),
            task: self.task.id.clone(),
            source,
        }
    }

    fn limit_error(&self, stream: &'static str, output: CapturedOutput, elapsed: Duration) -> (r:
        RunnerError)
        ensures
            r@ == limit_fault(self.task@, stream@, output@, elapsed),
    {
        RunnerError::OutputLimit(
            Box::new(
                OutputLimitTask {
                    project: self.task.project.clone(),
                    task: self.task.id.clone(),
                    stream,
                    limit: self.task.max_output_bytes,
                    output,
                    elapsed,
                },
            ),
        )
    }

    fn stopped_error(&self, stop: Stop, output: CapturedOutput, elapsed: Duration) -> (r:
        RunnerError)
        ensures
            r@ == stopped_fault(self.task@, stop, output@, elapsed),
    {
        match stop {
            Stop::Cancelled => RunnerError::Cancelled(
                Box::new(
                    CancelledTask {
                        project: self.task.project.clone(),
                        task: self.task.id.clone(),
                        output,
                        elapsed,
                    },
                ),
            ),
            Stop::OutputLimit(stream) => self.limit_error(stream, output, elapsed),
            Stop::TimedOut => RunnerError::TimedOut(
                Box::new(
                    TimedOutTask {
                        project: self.task.project.clone(),
                        task: self.task.id.clone(),
                        command: copy_texts(&self.task.command),
                        cwd: self.task.cwd.clone(),
                        timeout: self.task.timeout,
                        output,
                        elapsed,
                    },
                ),
            ),
        }
    }

    fn join_output(
        &self,
        stdout: Result<StreamCapture, IoError>,
        stderr: Result<StreamCapture, IoError>,
    ) -> (r: Result<CapturedOutput, RunnerError>)
        ensures
            match r {
                Ok(output) => joined_output(self.task@, stdout, stderr) == Ok::<
                    CapturedView,
                    RunnerFault,
                >(output@),
                Err(error) => joined_output(self.task@, stdout, stderr) == Err::<
                    CapturedView,
                    RunnerFault,
                >(error@),
            },
    {
        match stdout {
            Err(source) => Err(
                RunnerError::OutputRead {
                    project: self.task.project.clone(),
                    task: self.task.id.clone(),
                    stream: "stdout",
                    source,
                },
            ),
            Ok(out) => match stderr {
                Err(source) => Err(
                    RunnerError::OutputRead {
                        project: self.task.project.clone(),
                        task: self.task.id.clone(),
                        stream: "stderr",
                        source,
                    },
                ),
                Ok(err) => Ok(CapturedOutput { stdout: out.bytes, stderr: err.bytes }),
            },
        }
    }

    fn settle(
        &self,
        exit: ProcessExit,
        stdout: Result<StreamCapture, IoError>,
        stderr: Result<StreamCapture, IoError>,
        elapsed: Duration,
    ) -> (r: Result<TaskResult, RunnerError>)
        ensures
            outcome_view(r) == settled(self.task@, exit, stdout, stderr, elapsed),
    {
        let out_exceeded: bool = match &stdout {
            Ok(capture) => capture.exceeded,
            Err(_) => false,
        };
        let err_exceeded: bool = match &stderr {
            Ok(capture) => capture.exceeded,
            Err(_) => false,
        };
        let output = match self.join_output(stdout, stderr) {
            Ok(output) => output,
            Err(error) => {
                return Err(error);
            },
        };
        if out_exceeded {
            return Err(self.limit_error("stdout", output, elapsed));
        }
        if err_exceeded {
            return Err(self.limit_error("stderr", output, elapsed));
        }
        if !exit.success {
            return Err(
                RunnerError::Failed(
                    Box::new(
                        FailedTask {
                            project: self.task.project.clone(),
                            task: self.task.id.clone(),
                            command: copy_texts(&self.task.command),
                            cwd: self.task.cwd.clone(),
                            code: exit.code,
                            output,
                            elapsed,
                        },
                    ),
                ),
            );
        }
        Ok(TaskResult { output, elapsed, cached: false })
    }

    fn poll(
        &self,
        interval: Duration,
        exceeded: Option<&'static str>,
        cancelled: bool,
        wait: WaitReport,
        readers_done: u8,
        elapsed: Duration,
    ) -> (r: (RunPhase, RunAction))
        ensures
            (r.0@, r.1@) == polled(
                self.task@,
                interval,
                exceeded,
                cancelled,
                wait,
                readers_done,
                elapsed,
            ),
    {
        let outcome: WaitOutcome = match &wait {
            WaitReport::Running => WaitOutcome::Running,
            WaitReport::Exited(_) => WaitOutcome::Exited,
            WaitReport::Failed(_) => WaitOutcome::Failed,
        };
        match poll_decision(
            cancelled,
            exceeded,
            outcome,
            readers_done,
            elapsed,
            self.task.timeout,
            interval,
        ) {
            PollDecision::Cancel => (
                RunPhase::Stopping { stop: Stop::Cancelled },
                RunAction::Terminate(TerminationReason::Cancellation),
            ),
            PollDecision::OutputLimit(stream) => (
                RunPhase::Stopping { stop: Stop::OutputLimit(stream) },
                RunAction::Terminate(TerminationReason::OutputLimit),
            ),
            PollDecision::Exited { descendants_may_hold_pipes } => match wait {
                WaitReport::Exited(exit) => {
                    if descendants_may_hold_pipes {
                        (
                            RunPhase::Cleaning { exit },
                            RunAction::Terminate(TerminationReason::DescendantCleanup),
                        )
                    } else {
                        (RunPhase::Settling { exit }, RunAction::Join)
                    }
                },
                _ => {
                    assert(false);
                    (RunPhase::Done, RunAction::Join)
                },
            },
            PollDecision::Timeout => (
                RunPhase::Stopping { stop: Stop::TimedOut },
                RunAction::Terminate(TerminationReason::Timeout),
            ),
            PollDecision::WaitFailed => match wait {
                WaitReport::Failed(source) => (
                    RunPhase::FailingWait { source },
                    RunAction::Terminate(TerminationReason::WaitFailure),
                ),
                _ => {
                    assert(false);
                    (RunPhase::Done, RunAction::Join)
                },
            },
            PollDecision::Sleep(pause) => (
                RunPhase::Polling { interval: next_poll_interval(interval), exceeded },
                RunAction::Sleep(pause),
            ),
        }
    }

    /// Take note of what happened, and say what to do next.
    pub fn run(&mut self, event: RunEvent) -> (r: RunAction)
        requires
            expects(old(self).phase@, event),
        ensures
            final(self).task == old(self).task,
            (final(self).phase@, r@) == next_step(old(self).task@, old(self).phase@, event),
    {
        let mut phase = RunPhase::Done;
        core::mem::swap(&mut phase, &mut self.phase);
        let (next, action): (RunPhase, RunAction) = match (phase, event) {
            (RunPhase::Fresh, RunEvent::Begin { cancelled }) => {
                if cancelled {
                    let error = self.stopped_error(
                        Stop::Cancelled,
                        CapturedOutput::empty(),
                        Duration::zero(),
                    );
                    (RunPhase::Done, RunAction::Finish(Err(error)))
                } else if self.task.command.len() == 0 {
                    let error = RunnerError::EmptyCommand {
                        project: self.task.project.clone(),
                        task: self.task.id.clone(),
                    };
                    (RunPhase::Done, RunAction::Finish(Err(error)))
                } else {
                    (RunPhase::Spawning, RunAction::Spawn)
                }
            },
            (RunPhase::Spawning, RunEvent::Spawned(Err(source))) => {
                let error = RunnerError::Spawn {
                    project: self.task.project.clone(),
                    task: self.task.id.clone(),
                    command: copy_texts(&self.task.command),
                    cwd: self.task.cwd.clone(),
                    source,
                };
                (RunPhase::Done, RunAction::Finish(Err(error)))
            },
            (RunPhase::Spawning, RunEvent::Spawned(Ok(_))) => {
                (
                    RunPhase::Polling {
                        interval: Duration { nanos: POLL_INTERVAL_START },
                        exceeded: None,
                    },
                    RunAction::Poll,
                )
            },
            (
                RunPhase::Polling { interval, exceeded },
                RunEvent::Polled { limit_hit, cancelled, wait, readers_done, elapsed },
            ) => {
                let over: Option<&'static str> = match exceeded {
                    Some(stream) => Some(stream),
                    None => limit_hit,
                };
                self.poll(interval, over, cancelled, wait, readers_done, elapsed)
            },
            (RunPhase::Cleaning { exit }, RunEvent::Terminated(result)) => {
                match result {
                    Err(source) => {
                        let error = self.terminate_error(
                            TerminationReason::DescendantCleanup,
                            source,
                        );
                        (RunPhase::Done, RunAction::Finish(Err(error)))
                    },
                    Ok(_) => (RunPhase::Settling { exit }, RunAction::Join),
                }
            },
            (RunPhase::Stopping { stop }, RunEvent::Terminated(result)) => {
                match result {
                    Err(source) => {
                        let reason: TerminationReason = match stop {
                            Stop::Cancelled => TerminationReason::Cancellation,
                            Stop::OutputLimit(_) => TerminationReason::OutputLimit,
                            Stop::TimedOut => TerminationReason::Timeout,
                        };
                        let error = self.terminate_error(reason, source);
                        (RunPhase::Done, RunAction::Finish(Err(error)))
                    },
                    Ok(_) => (RunPhase::Reaping { stop }, RunAction::Reap),
                }
            },
            (RunPhase::FailingWait { source }, RunEvent::Terminated(result)) => {
                let error: RunnerError = match result {
                    Err(failure) => self.terminate_error(TerminationReason::WaitFailure, failure),
                    Ok(_) => self.wait_error(source),
                };
                (RunPhase::Draining { error }, RunAction::Join)
            },
            (RunPhase::Reaping { stop }, RunEvent::Reaped(result)) => {
                let wait_failure: Option<IoError> = match result {
                    Err(source) => Some(source),
                    Ok(_) => None,
                };
                (RunPhase::Collecting { stop, wait_failure }, RunAction::Join)
            },
            (
                RunPhase::Collecting { stop, wait_failure },
                RunEvent::Joined { stdout, stderr, elapsed },
            ) => {
                let error: RunnerError = match wait_failure {
                    Some(source) => self.wait_error(source),
                    None => match self.join_output(stdout, stderr) {
                        Err(error) => error,
                        Ok(output) => self.stopped_error(stop, output, elapsed),
                    },
                };
                (RunPhase::Done, RunAction::Finish(Err(error)))
            },
            (RunPhase::Settling { exit }, RunEvent::Joined { stdout, stderr, elapsed }) => {
                let outcome = self.settle(exit, stdout, stderr, elapsed);
                (RunPhase::Done, RunAction::Finish(outcome))
            },
            (RunPhase::Draining { error }, RunEvent::Joined { .. }) => {
                (RunPhase::Done, RunAction::Finish(Err(error)))
            },
            (phase, _) => (phase, RunAction::Poll),
        };
        self.phase = next;
        action
    }
}

} // verus!
