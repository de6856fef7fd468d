//! How a task can end.

use vstd::prelude::*;
use vstd::string::StringExecFns;

use crate::events::TaskStatus;
use crate::io::{IoError, IoErrorView};
use crate::runner::poll::{reason_label, TerminationReason};
use crate::runner::stream::{CapturedOutput, CapturedView};
use crate::runner::{displayed_command, format_command};
use crate::text::{decimal, number, texts};
use crate::time::Duration;

verus! {

/// The result of a completed task process.
#[derive(Debug, Clone, PartialEq, Eq)]
pub struct TaskResult {
    pub output: CapturedOutput,
    pub elapsed: Duration,
    pub cached: bool,
}

/// What a `TaskResult` says.
pub struct TaskResultView {
    pub output: CapturedView,
    pub elapsed: Duration,
    pub cached: bool,
}

impl View for TaskResult {
    type V = TaskResultView;

    open spec fn view(&self) -> TaskResultView {
        TaskResultView { output: self.output@, elapsed: self.elapsed, cached: self.cached }
    }
}

/// Details of a process that exited unsuccessfully.
#[derive(Debug, Clone, PartialEq, Eq)]
pub struct FailedTask {
    pub project: String,
    pub task: String,
    pub command: Vec<String>,
    pub cwd: String,
    pub code: Option<i32>,
    pub output: CapturedOutput,
    pub elapsed: Duration,
}

/// Details of a process that exceeded its configured timeout.
#[derive(Debug, Clone, PartialEq, Eq)]
pub struct TimedOutTask {
    pub project: String,
    pub task: String,
    pub command: Vec<String>,
    pub cwd: String,
    pub timeout: Duration,
    pub output: CapturedOutput,
    pub elapsed: Duration,
}

/// Details of a process that wrote more than its limit.
#[derive(Debug, Clone, PartialEq, Eq)]
pub struct OutputLimitTask {
    pub project: String,
    pub task: String,
    pub stream: &'static str,
    pub limit: usize,
    pub output: CapturedOutput,
    pub elapsed: Duration,
}

/// Details of a process that was cancelled.
#[derive(Debug, Clone, PartialEq, Eq)]
pub struct CancelledTask {
    pub project: String,
    pub task: String,
    pub output: CapturedOutput,
    pub elapsed: Duration,
}

/// Expected failures while spawning or executing a project task.
#[derive(Debug, Clone, PartialEq, Eq)]
pub enum RunnerError {
    EmptyCommand { project: String, task: String },
    Spawn { project: String, task: String, command: Vec<String>, cwd: String, source: IoError },
    Wait { project: String, task: String, source: IoError },
    OutputRead { project: String, task: String, stream: &'static str, source: IoError },
    Terminate { project: String, task: String, reason: TerminationReason, source: IoError },
    OutputLimit(Box<OutputLimitTask>),
    Cancelled(Box<CancelledTask>),
    Failed(Box<FailedTask>),
    TimedOut(Box<TimedOutTask>),
}

/// What a `RunnerError` says.
pub enum RunnerFault {
    EmptyCommand { project: Seq<char>, task: Seq<char> },
    Spawn {
        project: Seq<char>,
        task: Seq<char>,
        command: Seq<Seq<char>>,
        cwd: Seq<char>,
        source: IoErrorView,
    },
    Wait { project: Seq<char>, task: Seq<char>, source: IoErrorView },
    OutputRead { project: Seq<char>, task: Seq<char>, stream: Seq<char>, source: IoErrorView },
    Terminate {
        project: Seq<char>,
        task: Seq<char>,
        reason: TerminationReason,
        source: IoErrorView,
    },
    OutputLimit {
        project: Seq<char>,
        task: Seq<char>,
        stream: Seq<char>,
        limit: usize,
        output: CapturedView,
        elapsed: Duration,
    },
    Cancelled { project: Seq<char>, task: Seq<char>, output: CapturedView, elapsed: Duration },
    Failed {
        project: Seq<char>,
        task: Seq<char>,
        command: Seq<Seq<char>>,
        cwd: Seq<char>,
        code: Option<i32>,
        output: CapturedView,
        elapsed: Duration,
    },
    TimedOut {
        project: Seq<char>,
        task: Seq<char>,
        command: Seq<Seq<char>>,
        cwd: Seq<char>,
        timeout: Duration,
        output: CapturedView,
        elapsed: Duration,
    },
}

impl View for RunnerError {
    type V = RunnerFault;

    open spec fn view(&self) -> RunnerFault {
        match *self {
            RunnerError::EmptyCommand { project, task } => RunnerFault::EmptyCommand {
                project: project@,
                task: task@,
            },
            RunnerError::Spawn { project, task, command, cwd, source } => RunnerFault::Spawn {
                project: project@,
                task: task@,
                command: texts(command@),
                cwd: cwd@,
                source: source@,
            },
            RunnerError::Wait { project, task, source } => RunnerFault::Wait {
                project: project@,
                task: task@,
                source: source@,
            },
            RunnerError::OutputRead { project, task, stream, source } => RunnerFault::OutputRead {
                project: project@,
                task: task@,
                stream: stream@,
                source: source@,
            },
            RunnerError::Terminate { project, task, reason, source } => RunnerFault::Terminate {
                project: project@,
                task: task@,
                reason,
                source: source@,
            },
            RunnerError::OutputLimit(details) => RunnerFault::OutputLimit {
                project: details.project@,
                task: details.task@,
                stream: details.stream@,
                limit: details.limit,
                output: details.output@,
                elapsed: details.elapsed,
            },
            RunnerError::Cancelled(details) => RunnerFault::Cancelled {
                project: details.project@,
                task: details.task@,
                output: details.output@,
                elapsed: details.elapsed,
            },
            RunnerError::Failed(details) => RunnerFault::Failed {
                project: details.project@,
                task: details.task@,
                command: texts(details.command@),
                cwd: details.cwd@,
                code: details.code,
                output: details.output@,
                elapsed: details.elapsed,
            },
            RunnerError::TimedOut(details) => RunnerFault::TimedOut {
                project: details.project@,
                task: details.task@,
                command: texts(details.command@),
                cwd: details.cwd@,
                timeout: details.timeout,
                output: details.output@,
                elapsed: details.elapsed,
            },
        }
    }
}

/// How a task ended.
pub open spec fn outcome_view(outcome: Result<TaskResult, RunnerError>) -> Result<
    TaskResultView,
    RunnerFault,
> {
    match outcome {
        Ok(result) => Ok(result@),
        Err(error) => Err(error@),
    }
}

/// The output that a failed task left.
pub open spec fn fault_output(fault: RunnerFault) -> Option<CapturedView> {
    match fault {
        RunnerFault::Failed { output, .. } => Some(output),
        RunnerFault::TimedOut { output, .. } => Some(output),
        RunnerFault::OutputLimit { output, .. } => Some(output),
        RunnerFault::Cancelled { output, .. } => Some(output),
        _ => None,
    }
}

/// How long a failed task ran.
pub open spec fn fault_elapsed(fault: RunnerFault) -> Option<Duration> {
    match fault {
        RunnerFault::Failed { elapsed, .. } => Some(elapsed),
        RunnerFault::TimedOut { elapsed, .. } => Some(elapsed),
        RunnerFault::OutputLimit { elapsed, .. } => Some(elapsed),
        RunnerFault::Cancelled { elapsed, .. } => Some(elapsed),
        _ => None,
    }
}

/// The lifecycle status that a failure presents as.
pub open spec fn fault_status(fault: RunnerFault) -> TaskStatus {
    match fault {
        RunnerFault::TimedOut { .. } => TaskStatus::TimedOut,
        RunnerFault::OutputLimit { .. } => TaskStatus::OutputLimit,
        RunnerFault::Cancelled { .. } => TaskStatus::Cancelled,
        _ => TaskStatus::Failed,
    }
}

/// A signed number in decimal.
pub open spec fn signed_decimal(n: int) -> Seq<char> {
    if n < 0 {
        "-"@ + decimal((-n) as nat)
    } else {
        decimal(n as nat)
    }
}

pub(crate) fn signed_number(n: i32) -> (r: String)
    ensures
        r@ == signed_decimal(n as int),
{
    if n < 0 {
        let mut text = "-".to_owned();
        let size: i64 = -(n as i64);
        text.append(number(size as u128).as_str());
        text
    } else {
        number(n as u128)
    }
}

/// How an exit status is shown.
pub open spec fn exit_text(code: Option<i32>) -> Seq<char> {
    match code {
        Some(code) => signed_decimal(code as int),
        None => "terminated by signal"@,
    }
}

/// The text that reports a failure.
pub open spec fn runner_fault_text(fault: RunnerFault) -> Seq<char> {
    match fault {
        RunnerFault::EmptyCommand { project, task } => "project '"@ + project + "' task '"@ + task
            + "' has an empty command"@,
        RunnerFault::Spawn { project, task, command, cwd, source } => "could not start "@ + project
            + "/"@ + task + " ("@ + displayed_command(command) + ") in "@ + cwd + ": "@
            + source.message,
        RunnerFault::Wait { project, task, source } => "could not wait for "@ + project + "/"@
            + task + ": "@ + source.message,
        RunnerFault::OutputRead { project, task, stream, source } => "could not read "@ + stream
            + " for "@ + project + "/"@ + task + ": "@ + source.message,
        RunnerFault::Terminate { project, task, reason, source } => "could not terminate "@
            + project + "/"@ + task + " during "@ + reason_label(reason) + ": "@ + source.message,
        RunnerFault::OutputLimit { project, task, stream, limit, .. } => project + "/"@ + task
            + " exceeded the "@ + stream + " output limit of "@ + decimal(limit as nat)
            + " bytes"@,
        RunnerFault::Cancelled { project, task, .. } => project + "/"@ + task + " was cancelled"@,
        RunnerFault::Failed { project, task, command, cwd, code, .. } => project + "/"@ + task
            + " ("@ + displayed_command(command) + ") failed in "@ + cwd + " with exit status "@
            + exit_text(code),
        RunnerFault::TimedOut { project, task, command, cwd, timeout, .. } => project + "/"@ + task
            + " ("@ + displayed_command(command) + ") timed out after "@ + decimal(
            (timeout.nanos / 1_000_000_000) as nat,
        ) + "s in "@ + cwd,
    }
}

impl RunnerError {
    /// The output that the failed task left.
    pub fn output(&self) -> (r: Option<&CapturedOutput>)
        ensures
            match r {
                Some(output) => fault_output(self@) == Some(output@),
                None => fault_output(self@) is None,
            },
    {
        match self {
            RunnerError::Failed(details) => Some(&details.output),
            RunnerError::TimedOut(details) => Some(&details.output),
            RunnerError::OutputLimit(details) => Some(&details.output),
            RunnerError::Cancelled(details) => Some(&details.output),
            _ => None,
        }
    }

    /// How long the failed task ran.
    pub fn elapsed(&self) -> (r: Option<Duration>)
        ensures
            r == fault_elapsed(self@),
    {
        match self {
            RunnerError::Failed(details) => Some(details.elapsed),
            RunnerError::TimedOut(details) => Some(details.elapsed),
            RunnerError::OutputLimit(details) => Some(details.elapsed),
            RunnerError::Cancelled(details) => Some(details.elapsed),
            _ => None,
        }
    }

    /// The lifecycle status this failure presents as.
    pub fn status(&self) -> (r: TaskStatus)
        ensures
            r == fault_status(self@),
    {
        match self {
            RunnerError::TimedOut(_) => TaskStatus::TimedOut,
            RunnerError::OutputLimit(_) => TaskStatus::OutputLimit,
            RunnerError::Cancelled(_) => TaskStatus::Cancelled,
            _ => TaskStatus::Failed,
        }
    }

    /// The text of the failure that this one wraps, where it wraps one.
    pub fn source(&self) -> (r: Option<String>)
        ensures
            crate::text::optional_text(r) == (match self@ {
                RunnerFault::Spawn { source, .. } => Some(source.message),
                RunnerFault::Wait { source, .. } => Some(source.message),
                RunnerFault::OutputRead { source, .. } => Some(source.message),
                RunnerFault::Terminate { source, .. } => Some(source.message),
                _ => None,
            }),
    {
        match self {
            RunnerError::Spawn { source, .. } => Some(source.message.clone()),
            RunnerError::Wait { source, .. } => Some(source.message.clone()),
            RunnerError::OutputRead { source, .. } => Some(source.message.clone()),
            RunnerError::Terminate { source, .. } => Some(source.message.clone()),
            _ => None,
        }
    }

    /// The text that reports the failure.
    pub fn message(&self) -> (r: String)
        ensures
            r@ == runner_fault_text(self@),
    {
        match self {
            RunnerError::EmptyCommand { project, task } => {
                let mut text = "project '".to_owned();
                text.append(project.as_str());
                text.append("' task '");
                text.append(task.as_str());
                text.append("' has an empty command");
                text
            },
            RunnerError::Spawn { project, task, command, cwd, source } => {
                let mut text = "could not start ".to_owned();
                text.append(project.as_str());
                text.append("/");
                text.append(task.as_str());
                text.append(" (");
                text.append(format_command(command).as_str());
                text.append(") in ");
                text.append(cwd.as_str());
                text.append(": ");
                text.append(source.message.as_str());
                text
            },
            RunnerError::Wait { project, task, source } => {
                let mut text = "could not wait for ".to_owned();
                text.append(project.as_str());
                text.append("/");
                text.append(task.as_str());
                text.append(": ");
                text.append(source.message.as_str());
                text
            },
            RunnerError::OutputRead { project, task, stream, source } => {
                let mut text = "could not read ".to_owned();
                text.append(stream);
                text.append(" for ");
                text.append(project.as_str());
                text.append("/");
                text.append(task.as_str());
                text.append(": ");
                text.append(source.message.as_str());
                text
            },
            RunnerError::Terminate { project, task, reason, source } => {
                let mut text = "could not terminate ".to_owned();
                text.append(project.as_str());
                text.append("/");
                text.append(task.as_str());
                text.append(" during ");
                text.append(reason.label());
                text.append(": ");
                text.append(source.message.as_str());
                text
            },
            RunnerError::OutputLimit(details) => {
                let mut text = details.project.clone();
                text.append("/");
                text.append(details.task.as_str());
                text.append(" exceeded the ");
                text.append(details.stream);
                text.append(" output limit of ");
                text.append(number(details.limit as u128).as_str());
                text.append(" bytes");
                text
            },
            RunnerError::Cancelled(details) => {
                let mut text = details.project.clone();
                text.append("/");
                text.append(details.task.as_str());
                text.append(" was cancelled");
                text
            },
            RunnerError::Failed(details) => {
                let mut text = details.project.clone();
                text.append("/");
                text.append(details.task.as_str());
                text.append(" (");
                text.append(format_command(&details.command).as_str());
                text.append(") failed in ");
                text.append(details.cwd.as_str());
                text.append(" with exit status ");
                match details.code {
                    Some(code) => {
                        text.append(signed_number(code).as_str());
                    },
                    None => {
                        text.append("terminated by signal");
                    },
                }
                text
            },
            RunnerError::TimedOut(details) => {
                let mut text = details.project.clone();
                text.append("/");
                text.append(details.task.as_str());
                text.append(" (");
                text.append(format_command(&details.command).as_str());
                text.append(") timed out after ");
                text.append(number(details.timeout.as_secs()).as_str());
                text.append("s in ");
                text.append(details.cwd.as_str());
                text
            },
        }
    }
}

} // verus!
