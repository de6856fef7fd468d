//! What to do about a running child process.

use vstd::prelude::*;

use crate::time::Duration;

verus! {

/// First wait between child-status polls, in nanoseconds. Short tasks finish
/// after one or two of these instead of stalling for a fixed interval.
pub const POLL_INTERVAL_START: u128 = 1_000_000;

/// Longest wait between polls, in nanoseconds, so a long task stops waking the
/// process hundreds of times per second.
pub const POLL_INTERVAL_MAX: u128 = 50_000_000;

/// The observable result of a completed subprocess.
#[derive(Debug, Clone, Copy, PartialEq, Eq, Structural)]
pub struct ProcessExit {
    pub code: Option<i32>,
    pub success: bool,
}

/// The observable result of one non-blocking child wait.
#[derive(Debug, Clone, Copy, PartialEq, Eq, Structural)]
pub enum WaitOutcome {
    Exited,
    Running,
    Failed,
}

/// What the poll loop must do next, given the state it can observe.
#[derive(Debug, Clone, Copy, PartialEq, Eq)]
pub enum PollDecision {
    /// Terminate the tree and report cancellation.
    Cancel,
    /// Terminate the tree and report that `stream` exceeded its limit.
    OutputLimit(&'static str),
    /// The direct child exited; descendants may still hold the pipes open.
    Exited { descendants_may_hold_pipes: bool },
    /// Terminate the tree and report the timeout.
    Timeout,
    /// The wait failed; report a wait error.
    WaitFailed,
    /// Still running; sleep before polling again.
    Sleep(Duration),
}

/// Why a process tree has to be terminated.
#[derive(Debug, Clone, Copy, PartialEq, Eq, Structural)]
pub enum TerminationReason {
    Cancellation,
    OutputLimit,
    DescendantCleanup,
    Timeout,
    WaitFailure,
}

/// The words for a reason.
pub open spec fn reason_label(reason: TerminationReason) -> Seq<char> {
    match reason {
        TerminationReason::Cancellation => "cancellation"@,
        TerminationReason::OutputLimit => "output limit"@,
        TerminationReason::DescendantCleanup => "descendant cleanup"@,
        TerminationReason::Timeout => "timeout"@,
        TerminationReason::WaitFailure => "wait error"@,
    }
}

impl TerminationReason {
    pub fn label(self) -> (r: &'static str)
        ensures
            r@ == reason_label(self),
    {
        match self {
            TerminationReason::Cancellation => "cancellation",
            TerminationReason::OutputLimit => "output limit",
            TerminationReason::DescendantCleanup => "descendant cleanup",
            TerminationReason::Timeout => "timeout",
            TerminationReason::WaitFailure => "wait error",
        }
    }
}

/// The decision: cancellation outranks everything, then an exceeded stream,
/// then what the wait observed.
pub open spec fn decided(
    cancelled: bool,
    exceeded_stream: Option<&'static str>,
    wait: WaitOutcome,
    readers_done: u8,
    elapsed: Duration,
    timeout: Duration,
    poll_interval: Duration,
) -> PollDecision {
    if cancelled {
        PollDecision::Cancel
    } else if exceeded_stream is Some {
        PollDecision::OutputLimit(exceeded_stream->0)
    } else {
        match wait {
            WaitOutcome::Exited => PollDecision::Exited {
                descendants_may_hold_pipes: readers_done < 2,
            },
            WaitOutcome::Failed => PollDecision::WaitFailed,
            WaitOutcome::Running => if elapsed.nanos >= timeout.nanos {
                PollDecision::Timeout
            } else if poll_interval.nanos <= timeout.nanos - elapsed.nanos {
                PollDecision::Sleep(poll_interval)
            } else {
                PollDecision::Sleep(Duration { nanos: (timeout.nanos - elapsed.nanos) as u128 })
            },
        }
    }
}

pub fn poll_decision(
    cancelled: bool,
    exceeded_stream: Option<&'static str>,
    wait: WaitOutcome,
    readers_done: u8,
    elapsed: Duration,
    timeout: Duration,
    poll_interval: Duration,
) -> (r: PollDecision)
    ensures
        r == decided(
            cancelled,
            exceeded_stream,
            wait,
            readers_done,
            elapsed,
            timeout,
            poll_interval,
        ),
{
    if cancelled {
        return PollDecision::Cancel;
    }
    if let Some(stream) = exceeded_stream {
        return PollDecision::OutputLimit(stream);
    }
    match wait {
        WaitOutcome::Exited => PollDecision::Exited {
            descendants_may_hold_pipes: readers_done < 2,
        },
        WaitOutcome::Failed => PollDecision::WaitFailed,
        WaitOutcome::Running => {
            if elapsed.nanos >= timeout.nanos {
                return PollDecision::Timeout;
            }
            let remaining: u128 = timeout.nanos - elapsed.nanos;
            if poll_interval.nanos <= remaining {
                PollDecision::Sleep(poll_interval)
            } else {
                PollDecision::Sleep(Duration { nanos: remaining })
            }
        },
    }
}

/// The interval after `current`: twice as long, up to the longest.
pub open spec fn longer_interval(current: Duration) -> Duration {
    if current.nanos * 2 <= POLL_INTERVAL_MAX {
        Duration { nanos: (current.nanos * 2) as u128 }
    } else {
        Duration { nanos: POLL_INTERVAL_MAX }
    }
}

pub fn next_poll_interval(current: Duration) -> (r: Duration)
    ensures
        r == longer_interval(current),
{
    if current.nanos <= POLL_INTERVAL_MAX / 2 {
        Duration { nanos: current.nanos * 2 }
    } else {
        Duration { nanos: POLL_INTERVAL_MAX }
    }
}

/// A running child is never left to sleep past its timeout.
pub proof fn law_sleep_ends_by_the_timeout(
    readers_done: u8,
    elapsed: Duration,
    timeout: Duration,
    poll_interval: Duration,
)
    ensures
        match decided(
            false,
            None,
            WaitOutcome::Running,
            readers_done,
            elapsed,
            timeout,
            poll_interval,
        ) {
            PollDecision::Sleep(pause) => elapsed.nanos + pause.nanos <= timeout.nanos
                && pause.nanos <= poll_interval.nanos,
            decision => decision is Timeout && elapsed.nanos >= timeout.nanos,
        },
{
}

} // verus!
