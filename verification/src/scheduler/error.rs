//! How a run can fail.

use vstd::prelude::*;
use vstd::string::StringExecFns;

use crate::cache::error::{cache_fault_text, CacheError, CacheFault};
use crate::io::{IoError, IoErrorView};
use crate::project::error::TaskNode;
use crate::runner::error::{runner_fault_text, RunnerError, RunnerFault};

verus! {

/// A failure of a run.
#[derive(Debug, Clone, PartialEq, Eq)]
pub enum SchedulerError {
    Task(Box<RunnerError>),
    Cache(CacheError),
    UnresolvedDependency { task: TaskNode, dependency: TaskNode },
    NoReadyWork,
    Cancelled,
    Output(IoError),
}

/// What a `SchedulerError` says.
pub enum SchedulerFault {
    Task(RunnerFault),
    Cache(CacheFault),
    UnresolvedDependency { task: Seq<char>, dependency: Seq<char> },
    NoReadyWork,
    Cancelled,
    Output(IoErrorView),
}

impl View for SchedulerError {
    type V = SchedulerFault;

    open spec fn view(&self) -> SchedulerFault {
        match *self {
            SchedulerError::Task(error) => SchedulerFault::Task(error@),
            SchedulerError::Cache(error) => SchedulerFault::Cache(error@),
            SchedulerError::UnresolvedDependency { task, dependency } =>
                SchedulerFault::UnresolvedDependency { task: task.id@, dependency: dependency.id@ },
            SchedulerError::NoReadyWork => SchedulerFault::NoReadyWork,
            SchedulerError::Cancelled => SchedulerFault::Cancelled,
            SchedulerError::Output(error) => SchedulerFault::Output(error@),
        }
    }
}

/// The text that reports a fault.
pub open spec fn scheduler_fault_text(fault: SchedulerFault) -> Seq<char> {
    match fault {
        SchedulerFault::Task(error) => runner_fault_text(error),
        SchedulerFault::Cache(error) => cache_fault_text(error),
        SchedulerFault::UnresolvedDependency { task, dependency } =>
            "scheduler could not resolve '"@ + dependency + "' for '"@ + task + "'"@,
        SchedulerFault::NoReadyWork => "scheduler found no ready task in the execution plan"@,
        SchedulerFault::Cancelled => "execution was cancelled"@,
        SchedulerFault::Output(error) => "could not write task output: "@ + error.message,
    }
}

impl SchedulerError {
    /// The text that reports the error.
    pub fn message(&self) -> (r: String)
        ensures
            r@ == scheduler_fault_text(self@),
    {
        match self {
            SchedulerError::Task(error) => error.message(),
            SchedulerError::Cache(error) => error.message(),
            SchedulerError::UnresolvedDependency { task, dependency } => {
                let mut text = "scheduler could not resolve '".to_owned();
                text.append(dependency.id.as_str());
                text.append("' for '");
                text.append(task.id.as_str());
                text.append("'");
                text
            },
            SchedulerError::NoReadyWork =>
                "scheduler found no ready task in the execution plan".to_owned(),
            SchedulerError::Cancelled => "execution was cancelled".to_owned(),
            SchedulerError::Output(error) => {
                let mut text = "could not write task output: ".to_owned();
                text.append(error.message.as_str());
                text
            },
        }
    }

    /// The text of the failure that this one wraps, where it wraps one.
    pub fn source(&self) -> (r: Option<String>)
        ensures
            crate::text::optional_text(r) == (match self@ {
                SchedulerFault::Task(error) => Some(runner_fault_text(error)),
                SchedulerFault::Cache(error) => Some(cache_fault_text(error)),
                SchedulerFault::Output(error) => Some(error.message),
                _ => None,
            }),
    {
        match self {
            SchedulerError::Task(error) => Some(error.message()),
            SchedulerError::Cache(error) => Some(error.message()),
            SchedulerError::Output(error) => Some(error.message.clone()),
            _ => None,
        }
    }
}

} // verus!
