//! Provider-neutral execution events.

use vstd::prelude::*;

use crate::project::error::TaskNode;
use crate::time::Duration;

verus! {

/// Version of the newline-delimited execution event contract.
pub const EXECUTION_EVENT_SCHEMA: u32 = 1;

#[derive(Debug, Clone, Copy, PartialEq, Eq, Structural)]
pub enum TaskStream {
    Stdout,
    Stderr,
}

#[derive(Debug, Clone, Copy, PartialEq, Eq, Structural)]
pub enum TaskStatus {
    Completed,
    Cached,
    Failed,
    TimedOut,
    OutputLimit,
    Cancelled,
    Blocked,
}

/// Something that happened during a run.
#[derive(Debug, Clone, PartialEq, Eq)]
pub enum ExecutionEvent {
    RunStarted { schema: u32, project: String, task_count: usize },
    TaskStarted { schema: u32, task: String },
    TaskOutput { schema: u32, task: String, stream: TaskStream, bytes: Vec<u8> },
    TaskAttemptStarted { schema: u32, task: String, attempt: u32, max_attempts: u32 },
    TaskFinished { schema: u32, task: String, status: TaskStatus, elapsed_ms: u128 },
    RunFinished {
        schema: u32,
        completed: usize,
        cached: usize,
        failed: usize,
        cancelled: usize,
        blocked: usize,
    },
}

/// What an `ExecutionEvent` says.
pub enum EventView {
    RunStarted { schema: u32, project: Seq<char>, task_count: usize },
    TaskStarted { schema: u32, task: Seq<char> },
    TaskOutput { schema: u32, task: Seq<char>, stream: TaskStream, bytes: Seq<u8> },
    TaskAttemptStarted { schema: u32, task: Seq<char>, attempt: u32, max_attempts: u32 },
    TaskFinished { schema: u32, task: Seq<char>, status: TaskStatus, elapsed_ms: u128 },
    RunFinished {
        schema: u32,
        completed: usize,
        cached: usize,
        failed: usize,
        cancelled: usize,
        blocked: usize,
    },
}

impl View for ExecutionEvent {
    type V = EventView;

    open spec fn view(&self) -> EventView {
        match *self {
            ExecutionEvent::RunStarted { schema, project, task_count } => EventView::RunStarted {
                schema,
                project: project@,
                task_count,
            },
            ExecutionEvent::TaskStarted { schema, task } => EventView::TaskStarted {
                schema,
                task: task@,
            },
            ExecutionEvent::TaskOutput { schema, task, stream, bytes } => EventView::TaskOutput {
                schema,
                task: task@,
                stream,
                bytes: bytes@,
            },
            ExecutionEvent::TaskAttemptStarted { schema, task, attempt, max_attempts } =>
            EventView::TaskAttemptStarted { schema, task: task@, attempt, max_attempts },
            ExecutionEvent::TaskFinished { schema, task, status, elapsed_ms } =>
            EventView::TaskFinished { schema, task: task@, status, elapsed_ms },
            ExecutionEvent::RunFinished {
                schema,
                completed,
                cached,
                failed,
                cancelled,
                blocked,
            } => EventView::RunFinished { schema, completed, cached, failed, cancelled, blocked },
        }
    }
}

impl ExecutionEvent {
    /// The version that the event carries.
    pub open spec fn schema_of(self) -> u32 {
        match self {
            ExecutionEvent::RunStarted { schema, .. } => schema,
            ExecutionEvent::TaskStarted { schema, .. } => schema,
            ExecutionEvent::TaskOutput { schema, .. } => schema,
            ExecutionEvent::TaskAttemptStarted { schema, .. } => schema,
            ExecutionEvent::TaskFinished { schema, .. } => schema,
            ExecutionEvent::RunFinished { schema, .. } => schema,
        }
    }

    pub fn task_started(node: &TaskNode) -> (r: ExecutionEvent)
        ensures
            r == (ExecutionEvent::TaskStarted { schema: EXECUTION_EVENT_SCHEMA, task: node.id }),
    {
        ExecutionEvent::TaskStarted { schema: EXECUTION_EVENT_SCHEMA, task: node.id.clone() }
    }

    pub fn task_output(node: &TaskNode, stream: TaskStream, bytes: Vec<u8>) -> (r: ExecutionEvent)
        ensures
            r == (ExecutionEvent::TaskOutput {
                schema: EXECUTION_EVENT_SCHEMA,
                task: node.id,
                stream,
                bytes,
            }),
    {
        ExecutionEvent::TaskOutput {
            schema: EXECUTION_EVENT_SCHEMA,
            task: node.id.clone(),
            stream,
            bytes,
        }
    }

    pub fn task_attempt_started(node: &TaskNode, attempt: u32, max_attempts: u32) -> (r:
        ExecutionEvent)
        ensures
            r == (ExecutionEvent::TaskAttemptStarted {
                schema: EXECUTION_EVENT_SCHEMA,
                task: node.id,
                attempt,
                max_attempts,
            }),
    {
        ExecutionEvent::TaskAttemptStarted {
            schema: EXECUTION_EVENT_SCHEMA,
            task: node.id.clone(),
            attempt,
            max_attempts,
        }
    }

    pub fn task_finished(node: &TaskNode, status: TaskStatus, elapsed: Duration) -> (r:
        ExecutionEvent)
        ensures
            r == (ExecutionEvent::TaskFinished {
                schema: EXECUTION_EVENT_SCHEMA,
                task: node.id,
                status,
                elapsed_ms: elapsed.nanos / 1_000_000,
            }),
    {
        ExecutionEvent::TaskFinished {
            schema: EXECUTION_EVENT_SCHEMA,
            task: node.id.clone(),
            status,
            elapsed_ms: elapsed.as_millis(),
        }
    }

    pub fn run_started(project: String, task_count: usize) -> (r: ExecutionEvent)
        ensures
            r == (ExecutionEvent::RunStarted {
                schema: EXECUTION_EVENT_SCHEMA,
                project,
                task_count,
            }),
    {
        ExecutionEvent::RunStarted { schema: EXECUTION_EVENT_SCHEMA, project, task_count }
    }

    pub fn run_finished(
        completed: usize,
        cached: usize,
        failed: usize,
        cancelled: usize,
        blocked: usize,
    ) -> (r: ExecutionEvent)
        ensures
            r == (ExecutionEvent::RunFinished {
                schema: EXECUTION_EVENT_SCHEMA,
                completed,
                cached,
                failed,
                cancelled,
                blocked,
            }),
    {
        ExecutionEvent::RunFinished {
            schema: EXECUTION_EVENT_SCHEMA,
            completed,
            cached,
            failed,
            cancelled,
            blocked,
        }
    }
}

/// The words for a status.
pub open spec fn status_label(status: TaskStatus) -> Seq<char> {
    match status {
        TaskStatus::Completed => "completed"@,
        TaskStatus::Cached => "cache hit"@,
        TaskStatus::Failed => "failed"@,
        TaskStatus::TimedOut => "timed out"@,
        TaskStatus::OutputLimit => "output limit exceeded"@,
        TaskStatus::Cancelled => "cancelled"@,
        TaskStatus::Blocked => "blocked"@,
    }
}

impl TaskStatus {
    pub fn label(self) -> (r: &'static str)
        ensures
            r@ == status_label(self),
    {
        match self {
            TaskStatus::Completed => "completed",
            TaskStatus::Cached => "cache hit",
            TaskStatus::Failed => "failed",
            TaskStatus::TimedOut => "timed out",
            TaskStatus::OutputLimit => "output limit exceeded",
            TaskStatus::Cancelled => "cancelled",
            TaskStatus::Blocked => "blocked",
        }
    }
}

/// No two statuses share a label, and none is empty.
pub proof fn law_labels_are_distinct(a: TaskStatus, b: TaskStatus)
    ensures
        status_label(a).len() > 0,
        status_label(a) == status_label(b) ==> a == b,
{
    reveal_strlit("completed");
    reveal_strlit("cache hit");
    reveal_strlit("failed");
    reveal_strlit("timed out");
    reveal_strlit("output limit exceeded");
    reveal_strlit("cancelled");
    reveal_strlit("blocked");
    if status_label(a).len() == status_label(b).len() && a != b {
        assert(status_label(a)[1] != status_label(b)[1] || status_label(a)[2] != status_label(b)[2]);
    }
}

/// The word that machines read for a status.
pub open spec fn status_token(status: TaskStatus) -> Seq<char> {
    match status {
        TaskStatus::Completed => "completed"@,
        TaskStatus::Cached => "cached"@,
        TaskStatus::Failed => "failed"@,
        TaskStatus::TimedOut => "timed_out"@,
        TaskStatus::OutputLimit => "output_limit"@,
        TaskStatus::Cancelled => "cancelled"@,
        TaskStatus::Blocked => "blocked"@,
    }
}

impl TaskStatus {
    pub fn token(self) -> (r: &'static str)
        ensures
            r@ == status_token(self),
    {
        match self {
            TaskStatus::Completed => "completed",
            TaskStatus::Cached => "cached",
            TaskStatus::Failed => "failed",
            TaskStatus::TimedOut => "timed_out",
            TaskStatus::OutputLimit => "output_limit",
            TaskStatus::Cancelled => "cancelled",
            TaskStatus::Blocked => "blocked",
        }
    }
}

impl TaskStream {
    /// The word that machines read for a stream.
    pub fn token(self) -> (r: &'static str)
        ensures
            r@ == (match self {
                TaskStream::Stdout => "stdout"@,
                TaskStream::Stderr => "stderr"@,
            }),
    {
        match self {
            TaskStream::Stdout => "stdout",
            TaskStream::Stderr => "stderr",
        }
    }
}

/// The name that machines read for an event.
pub open spec fn event_name(event: EventView) -> Seq<char> {
    match event {
        EventView::RunStarted { .. } => "run_started"@,
        EventView::TaskStarted { .. } => "task_started"@,
        EventView::TaskOutput { .. } => "task_output"@,
        EventView::TaskAttemptStarted { .. } => "task_attempt_started"@,
        EventView::TaskFinished { .. } => "task_finished"@,
        EventView::RunFinished { .. } => "run_finished"@,
    }
}

impl ExecutionEvent {
    pub fn name(&self) -> (r: &'static str)
        ensures
            r@ == event_name(self@),
    {
        match self {
            ExecutionEvent::RunStarted { .. } => "run_started",
            ExecutionEvent::TaskStarted { .. } => "task_started",
            ExecutionEvent::TaskOutput { .. } => "task_output",
            ExecutionEvent::TaskAttemptStarted { .. } => "task_attempt_started",
            ExecutionEvent::TaskFinished { .. } => "task_finished",
            ExecutionEvent::RunFinished { .. } => "run_finished",
        }
    }

    /// The version of the contract that the event was made for.
    pub fn schema(&self) -> (r: u32)
        ensures
            r == self.schema_of(),
    {
        match self {
            ExecutionEvent::RunStarted { schema, .. } => *schema,
            ExecutionEvent::TaskStarted { schema, .. } => *schema,
            ExecutionEvent::TaskOutput { schema, .. } => *schema,
            ExecutionEvent::TaskAttemptStarted { schema, .. } => *schema,
            ExecutionEvent::TaskFinished { schema, .. } => *schema,
            ExecutionEvent::RunFinished { schema, .. } => *schema,
        }
    }
}

/// No two statuses share a word that machines read.
pub proof fn law_tokens_are_distinct(a: TaskStatus, b: TaskStatus)
    ensures
        status_token(a) == status_token(b) ==> a == b,
{
    reveal_strlit("completed");
    reveal_strlit("cached");
    reveal_strlit("failed");
    reveal_strlit("timed_out");
    reveal_strlit("output_limit");
    reveal_strlit("cancelled");
    reveal_strlit("blocked");
    if status_token(a).len() == status_token(b).len() && a != b {
        assert(status_token(a)[0] != status_token(b)[0] || status_token(a)[1] != status_token(b)[1]);
    }
}

/// An event is named for what began or ended: no two share a name.
pub proof fn law_events_are_told_apart_by_name(event: EventView)
    ensures
        event_name(event) == "run_started"@ <==> event is RunStarted,
        event_name(event) == "task_started"@ <==> event is TaskStarted,
        event_name(event) == "task_output"@ <==> event is TaskOutput,
        event_name(event) == "task_attempt_started"@ <==> event is TaskAttemptStarted,
        event_name(event) == "task_finished"@ <==> event is TaskFinished,
        event_name(event) == "run_finished"@ <==> event is RunFinished,
{
    reveal_strlit("run_started");
    reveal_strlit("task_started");
    reveal_strlit("task_output");
    reveal_strlit("task_attempt_started");
    reveal_strlit("task_finished");
    reveal_strlit("run_finished");
    assert("run_started"@.len() == 11 && "task_output"@.len() == 11 && "run_started"@[0] == 'r');
    assert("task_started"@.len() == 12 && "run_finished"@.len() == 12 && "run_finished"@[0]
        == 'r');
    assert("task_attempt_started"@.len() == 20 && "task_finished"@.len() == 13);
}

} // verus!
