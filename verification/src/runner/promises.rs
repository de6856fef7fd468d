//! What running a task promises.

use vstd::prelude::*;

use crate::events::TaskStatus;
use crate::io::IoError;
use crate::project::planned::PlannedTaskView;
use crate::runner::error::{
    fault_elapsed, fault_output, fault_status, signed_decimal, RunnerFault, TaskResultView,
};
use crate::runner::machine::{
    joined_output, next_step, ActionView, PhaseView, RunEvent, Stop, WaitReport,
};
use crate::runner::poll::{
    decided, longer_interval, PollDecision, ProcessExit, TerminationReason, WaitOutcome,
};
use crate::runner::stream::{
    captures, delivered, left_over, read_failure, shown_length, stream_bytes, stream_end,
    CapturedView, ChunkRead, StreamCapture,
};
use crate::text::{decimal, is_digit, law_decimal_round_trip};
use crate::time::Duration;

verus! {

/// A cancellation comes before everything else, then a stream that is too long;
/// otherwise a process that ended ended by itself. One that runs has timed out
/// exactly when its time is over, and is otherwise looked at again after the
/// interval, or at the end of its time if that is sooner.
pub proof fn law_a_look_decides_by_what_comes_first(
    cancelled: bool,
    exceeded: Option<&'static str>,
    wait: WaitOutcome,
    readers_done: u8,
    elapsed: Duration,
    timeout: Duration,
    interval: Duration,
)
    ensures
        ({
            let decision = decided(
                cancelled,
                exceeded,
                wait,
                readers_done,
                elapsed,
                timeout,
                interval,
            );
            &&& decision is Cancel <==> cancelled
            &&& decision is OutputLimit <==> !cancelled && exceeded is Some
            &&& decision matches PollDecision::OutputLimit(stream) ==> exceeded == Some(stream)
            &&& decision is Exited <==> !cancelled && exceeded is None && wait
                == WaitOutcome::Exited
            &&& decision matches PollDecision::Exited { descendants_may_hold_pipes }
                ==> descendants_may_hold_pipes == (readers_done < 2)
            &&& decision is WaitFailed <==> !cancelled && exceeded is None && wait
                == WaitOutcome::Failed
            &&& decision is Timeout <==> !cancelled && exceeded is None && wait
                == WaitOutcome::Running && elapsed.nanos >= timeout.nanos
            &&& decision matches PollDecision::Sleep(pause) ==> pause.nanos <= interval.nanos
                && elapsed.nanos + pause.nanos <= timeout.nanos && (pause.nanos == interval.nanos
                || elapsed.nanos + pause.nanos == timeout.nanos)
        }),
{
}

/// The interval doubles from look to look until it is 50 milliseconds long, and
/// never grows beyond that.
pub proof fn law_intervals_double_up_to_their_bound(current: Duration)
    ensures
        longer_interval(current).nanos <= 50_000_000,
        current.nanos <= 25_000_000 ==> longer_interval(current).nanos == 2 * current.nanos,
        current.nanos >= 25_000_000 ==> longer_interval(current).nanos == 50_000_000,
{
}

/// A task that is cancelled before it starts is not started; nor is one without
/// a command. Any other is.
pub proof fn law_only_a_task_with_a_command_is_started(task: PlannedTaskView, cancelled: bool)
    ensures
        ({
            let (next, action) = next_step(task, PhaseView::Fresh, RunEvent::Begin { cancelled });
            &&& action is Spawn <==> !cancelled && task.command.len() > 0
            &&& action is Spawn ==> next is Spawning
            &&& cancelled ==> (action matches ActionView::Finish(Err(fault)) && fault
                == (RunnerFault::Cancelled {
                project: task.project,
                task: task.id,
                output: CapturedView { stdout: Seq::empty(), stderr: Seq::empty() },
                elapsed: Duration { nanos: 0 },
            }))
            &&& !cancelled && task.command.len() == 0 ==> (action matches ActionView::Finish(
                Err(fault),
            ) && fault == (RunnerFault::EmptyCommand { project: task.project, task: task.id }))
        }),
{
}

/// The reason for which a task is stopped.
pub open spec fn stopped_for(stop: Stop) -> TerminationReason {
    match stop {
        Stop::Cancelled => TerminationReason::Cancellation,
        Stop::OutputLimit(_) => TerminationReason::OutputLimit,
        Stop::TimedOut => TerminationReason::Timeout,
    }
}

/// A running task that is cancelled, prints too much or runs out of time is
/// terminated for that reason; one whose process ended is joined, once what it
/// left behind has been terminated too.
pub proof fn law_a_running_task_is_stopped_for_its_reason(
    task: PlannedTaskView,
    interval: Duration,
    exceeded: Option<&'static str>,
    limit_hit: Option<&'static str>,
    cancelled: bool,
    wait: WaitReport,
    readers_done: u8,
    elapsed: Duration,
)
    ensures
        ({
            let (next, action) = next_step(
                task,
                PhaseView::Polling { interval, exceeded },
                RunEvent::Polled { limit_hit, cancelled, wait, readers_done, elapsed },
            );
            let over = exceeded is Some || limit_hit is Some;
            &&& next matches PhaseView::Stopping { stop } ==> action == ActionView::Terminate(
                stopped_for(stop),
            )
            &&& cancelled ==> next == (PhaseView::Stopping { stop: Stop::Cancelled })
            &&& !cancelled && over ==> next == (PhaseView::Stopping {
                stop: Stop::OutputLimit(
                    if exceeded is Some {
                        exceeded->0
                    } else {
                        limit_hit->0
                    },
                ),
            })
            &&& !cancelled && !over ==> match wait {
                WaitReport::Exited(exit) => if readers_done < 2 {
                    next == (PhaseView::Cleaning { exit }) && action == ActionView::Terminate(
                        TerminationReason::DescendantCleanup,
                    )
                } else {
                    next == (PhaseView::Settling { exit }) && action is Join
                },
                WaitReport::Failed(source) => next == (PhaseView::FailingWait { source: source@ })
                    && action == ActionView::Terminate(TerminationReason::WaitFailure),
                WaitReport::Running => if elapsed.nanos >= task.timeout.nanos {
                    next == (PhaseView::Stopping { stop: Stop::TimedOut })
                } else {
                    next is Polling && action is Sleep
                },
            }
        }),
{
}

/// A task that was stopped, reaped and joined ends with the failure that it was
/// stopped for, and with all that it had printed.
pub proof fn law_a_stopped_task_keeps_its_output(
    task: PlannedTaskView,
    stop: Stop,
    exit: ProcessExit,
    out: StreamCapture,
    err: StreamCapture,
    elapsed: Duration,
)
    ensures
        ({
            let (reaping, reap) = next_step(
                task,
                PhaseView::Stopping { stop },
                RunEvent::Terminated(Ok(())),
            );
            let (collecting, join) = next_step(task, reaping, RunEvent::Reaped(Ok(exit)));
            let (done, last) = next_step(
                task,
                collecting,
                RunEvent::Joined { stdout: Ok(out), stderr: Ok(err), elapsed },
            );
            let output = CapturedView { stdout: out.bytes@, stderr: err.bytes@ };
            &&& reap is Reap && join is Join && done is Done
            &&& last matches ActionView::Finish(Err(fault)) && match stop {
                Stop::Cancelled => fault == (RunnerFault::Cancelled {
                    project: task.project,
                    task: task.id,
                    output,
                    elapsed,
                }),
                Stop::OutputLimit(stream) => fault == (RunnerFault::OutputLimit {
                    project: task.project,
                    task: task.id,
                    stream: stream@,
                    limit: task.max_output_bytes,
                    output,
                    elapsed,
                }),
                Stop::TimedOut => fault == (RunnerFault::TimedOut {
                    project: task.project,
                    task: task.id,
                    command: task.command,
                    cwd: task.cwd,
                    timeout: task.timeout,
                    output,
                    elapsed,
                }),
            }
        }),
{
}

/// A task whose process ended by itself succeeds exactly where both streams
/// could be read and kept whole and the process reported success; its result is
/// all that it printed and the time it took.
pub proof fn law_a_task_that_ended_by_itself_is_judged_by_its_exit(
    task: PlannedTaskView,
    exit: ProcessExit,
    out: StreamCapture,
    err: StreamCapture,
    elapsed: Duration,
)
    ensures
        ({
            let (next, action) = next_step(
                task,
                PhaseView::Settling { exit },
                RunEvent::Joined { stdout: Ok(out), stderr: Ok(err), elapsed },
            );
            let output = CapturedView { stdout: out.bytes@, stderr: err.bytes@ };
            &&& action matches ActionView::Finish(outcome) && if out.exceeded || err.exceeded {
                outcome == Err::<TaskResultView, RunnerFault>(
                    RunnerFault::OutputLimit {
                        project: task.project,
                        task: task.id,
                        stream: if out.exceeded {
                            "stdout"@
                        } else {
                            "stderr"@
                        },
                        limit: task.max_output_bytes,
                        output,
                        elapsed,
                    },
                )
            } else if exit.success {
                outcome == Ok::<TaskResultView, RunnerFault>(
                    TaskResultView { output, elapsed, cached: false },
                )
            } else {
                outcome == Err::<TaskResultView, RunnerFault>(
                    RunnerFault::Failed {
                        project: task.project,
                        task: task.id,
                        command: task.command,
                        cwd: task.cwd,
                        code: exit.code,
                        output,
                        elapsed,
                    },
                )
            }
        }),
{
}

/// Every failure is shown by its own status, with the output and the time that
/// it carries.
pub proof fn law_failures_say_how_they_ended(fault: RunnerFault)
    ensures
        fault matches RunnerFault::Failed { output, elapsed, .. } ==> fault_status(fault)
            == TaskStatus::Failed && fault_output(fault) == Some(output) && fault_elapsed(fault)
            == Some(elapsed),
        fault matches RunnerFault::TimedOut { output, elapsed, .. } ==> fault_status(fault)
            == TaskStatus::TimedOut && fault_output(fault) == Some(output) && fault_elapsed(fault)
            == Some(elapsed),
        fault matches RunnerFault::OutputLimit { output, elapsed, .. } ==> fault_status(fault)
            == TaskStatus::OutputLimit && fault_output(fault) == Some(output) && fault_elapsed(
            fault,
        ) == Some(elapsed),
        fault matches RunnerFault::Cancelled { output, elapsed, .. } ==> fault_status(fault)
            == TaskStatus::Cancelled && fault_output(fault) == Some(output) && fault_elapsed(fault)
            == Some(elapsed),
        !(fault is Failed || fault is TimedOut || fault is OutputLimit || fault is Cancelled)
            ==> fault_status(fault) == TaskStatus::Failed && fault_output(fault) is None
            && fault_elapsed(fault) is None,
{
}

/// What is kept of a stream is its beginning: all of it up to the limit, and
/// nothing beyond.
pub proof fn law_what_is_kept_is_the_beginning(
    capture: StreamCapture,
    written: Seq<u8>,
    limit: nat,
)
    requires
        captures(capture, written, limit),
    ensures
        capture.bytes@.is_prefix_of(written),
        capture.bytes@.len() <= limit,
        capture.exceeded <==> capture.bytes@.len() < written.len(),
        capture.exceeded ==> capture.bytes@.len() == limit,
{
    if written.len() > limit {
        assert(written.take(limit as int) =~= written.subrange(0, limit as int));
    } else {
        assert(written =~= written.subrange(0, written.len() as int));
    }
}

/// Of a chunk as much is kept as there is room for.
pub proof fn law_a_chunk_fills_the_room_that_is_left(held: nat, length: nat, limit: nat)
    requires
        held <= limit <= usize::MAX,
        length <= usize::MAX,
    ensures
        held + shown_length(length, left_over(held, limit)) == if held + length <= limit {
            held + length
        } else {
            limit
        },
{
}

/// A stream ends at its first empty read: everything before that is delivered,
/// in order, and nothing behind it.
pub proof fn law_a_stream_ends_at_its_first_empty_read(chunks: Seq<ChunkRead>, k: int)
    requires
        0 <= k <= chunks.len(),
        k < chunks.len() ==> (chunks[k].bytes matches Ok(bytes) && bytes@.len() == 0),
        forall|j: int|
            0 <= j < k ==> !((#[trigger] chunks[j]).bytes matches Ok(bytes) && bytes@.len() == 0),
    ensures
        delivered(chunks) == chunks.take(k),
{
    lemma_stream_end(chunks, 0, k);
}

proof fn lemma_stream_end(chunks: Seq<ChunkRead>, from: int, k: int)
    requires
        0 <= from <= k <= chunks.len(),
        k < chunks.len() ==> (chunks[k].bytes matches Ok(bytes) && bytes@.len() == 0),
        forall|j: int|
            from <= j < k ==> !((#[trigger] chunks[j]).bytes matches Ok(bytes) && bytes@.len() == 0),
    ensures
        stream_end(chunks, from) == k,
    decreases k - from,
{
    if from < k {
        assert(!(chunks[from].bytes matches Ok(bytes) && bytes@.len() == 0));
        lemma_stream_end(chunks, from + 1, k);
    }
}

/// The bytes of reads are those of the first and those of the others behind
/// them, however they are cut.
pub proof fn law_reads_are_put_together_in_order(a: Seq<ChunkRead>, b: Seq<ChunkRead>)
    ensures
        stream_bytes(a + b) == stream_bytes(a) + stream_bytes(b),
    decreases b.len(),
{
    if b.len() == 0 {
        assert(a + b =~= a);
        assert(stream_bytes(a) + stream_bytes(b) =~= stream_bytes(a));
    } else {
        law_reads_are_put_together_in_order(a, b.drop_last());
        assert((a + b).drop_last() =~= a + b.drop_last());
        assert(stream_bytes(a + b) =~= stream_bytes(a) + stream_bytes(b));
    }
}

/// Reading fails exactly at the first read that fails, or at the first chunk
/// within the limit that could not be shown.
pub proof fn law_reading_stops_at_the_first_failure(chunks: Seq<ChunkRead>, limit: nat)
    ensures
        match read_failure(chunks, limit) {
            None => forall|k: int| 0 <= k < chunks.len() ==> !#[trigger] fails_at(chunks, limit, k),
            Some(source) => exists|k: int| #[trigger]
                fails_at(chunks, limit, k) && 0 <= k < chunks.len() && (match chunks[k].bytes {
                    Err(error) => source == error@,
                    Ok(_) => chunks[k].shown matches Err(error) && source == error@,
                }) && forall|j: int| 0 <= j < k ==> !#[trigger] fails_at(chunks, limit, j),
        },
    decreases chunks.len(),
{
    if chunks.len() > 0 {
        let front = chunks.drop_last();
        let last = chunks.len() - 1;
        law_reading_stops_at_the_first_failure(front, limit);
        assert forall|k: int| 0 <= k < last implies #[trigger] fails_at(chunks, limit, k)
            == fails_at(front, limit, k) by {
            assert(chunks.take(k) =~= front.take(k));
            assert(chunks[k] == front[k]);
        }
        assert(chunks.take(last) =~= front);
        match read_failure(front, limit) {
            Some(source) => {
                let k = choose|k: int| #[trigger]
                    fails_at(front, limit, k) && 0 <= k < front.len() && (match front[k].bytes {
                        Err(error) => source == error@,
                        Ok(_) => front[k].shown matches Err(error) && source == error@,
                    }) && forall|j: int| 0 <= j < k ==> !#[trigger] fails_at(front, limit, j);
                assert(fails_at(chunks, limit, k));
                assert(chunks[k] == front[k]);
            },
            None => {
                if read_failure(chunks, limit) is Some {
                    assert(fails_at(chunks, limit, last));
                } else {
                    assert(!fails_at(chunks, limit, last));
                }
            },
        }
    }
}

/// Whether read `k` failed, or gave a chunk within the limit that could not be
/// shown.
pub open spec fn fails_at(chunks: Seq<ChunkRead>, limit: nat, k: int) -> bool {
    chunks[k].bytes is Err || (chunks[k].shown is Err && stream_bytes(chunks.take(k)).len()
        <= limit)
}

/// The output of a task is what both its streams hold; where a stream could not
/// be read the failure names that stream, the standard output first.
pub proof fn law_output_is_that_of_both_streams(
    task: PlannedTaskView,
    stdout: Result<StreamCapture, IoError>,
    stderr: Result<StreamCapture, IoError>,
)
    ensures
        match (stdout, stderr) {
            (Ok(out), Ok(err)) => joined_output(task, stdout, stderr) matches Ok(output)
                && output.stdout == out.bytes@ && output.stderr == err.bytes@,
            (Err(source), _) => joined_output(task, stdout, stderr) matches Err(
                RunnerFault::OutputRead { project, task: id, stream, source: why },
            ) && project == task.project && id == task.id && stream == "stdout"@ && why == source@,
            (Ok(_), Err(source)) => joined_output(task, stdout, stderr) matches Err(
                RunnerFault::OutputRead { project, task: id, stream, source: why },
            ) && project == task.project && id == task.id && stream == "stderr"@ && why == source@,
        },
{
}

/// Two numbers are written differently.
pub proof fn law_written_signed_numbers_differ(a: int, b: int)
    requires
        i32::MIN <= a <= i32::MAX,
        i32::MIN <= b <= i32::MAX,
        signed_decimal(a) == signed_decimal(b),
    ensures
        a == b,
{
    reveal_strlit("-");
    if a < 0 {
        law_decimal_round_trip((-a) as nat);
        assert(signed_decimal(a)[0] == '-');
        assert(signed_decimal(a).skip(1) =~= decimal((-a) as nat));
    } else {
        law_decimal_round_trip(a as nat);
        assert(is_digit(signed_decimal(a)[0]));
    }
    if b < 0 {
        law_decimal_round_trip((-b) as nat);
        assert(signed_decimal(b)[0] == '-');
        assert(signed_decimal(b).skip(1) =~= decimal((-b) as nat));
    } else {
        law_decimal_round_trip(b as nat);
        assert(is_digit(signed_decimal(b)[0]));
    }
}

} // verus!
