use mono::config::StdinMode;
use mono::events::TaskStatus;
use mono::io::{IoError, IoErrorKind};
use mono::map::TextMap;
use mono::project::planned::PlannedTask;
use mono::runner::error::{
    CancelledTask, FailedTask, OutputLimitTask, RunnerError, TaskResult, TimedOutTask,
};
use mono::runner::machine::{runnable, RunAction, RunEvent, Runner, WaitReport};
use mono::runner::poll::{
    next_poll_interval, poll_decision, PollDecision, ProcessExit, TerminationReason, WaitOutcome,
    POLL_INTERVAL_MAX, POLL_INTERVAL_START,
};
use mono::runner::stream::{read_stream, CapturedOutput, ChunkRead, StreamCapture};
use mono::runner::{format_command, CancellationToken};
use mono::time::Duration;

fn words(command: &[&str]) -> Vec<String> {
    command.iter().map(|word| (*word).to_owned()).collect()
}

fn cancelled_task() -> RunnerError {
    RunnerError::Cancelled(Box::new(CancelledTask {
        project: "fixture".to_owned(),
        task: "build".to_owned(),
        output: CapturedOutput::empty(),
        elapsed: Duration::zero(),
    }))
}

fn timed_out_task() -> RunnerError {
    RunnerError::TimedOut(Box::new(TimedOutTask {
        project: "fixture".to_owned(),
        task: "build".to_owned(),
        command: words(&["sleep"]),
        cwd: "/tmp".to_owned(),
        timeout: Duration::from_secs(1),
        output: CapturedOutput::empty(),
        elapsed: Duration::zero(),
    }))
}

fn output_limit_task() -> RunnerError {
    RunnerError::OutputLimit(Box::new(OutputLimitTask {
        project: "fixture".to_owned(),
        task: "build".to_owned(),
        stream: "stdout",
        limit: 8,
        output: CapturedOutput::empty(),
        elapsed: Duration::zero(),
    }))
}

fn failed_task() -> RunnerError {
    RunnerError::Failed(Box::new(FailedTask {
        project: "fixture".to_owned(),
        task: "build".to_owned(),
        command: words(&["tool"]),
        cwd: "/tmp".to_owned(),
        code: Some(1),
        output: CapturedOutput::empty(),
        elapsed: Duration::zero(),
    }))
}

fn empty_command() -> RunnerError {
    RunnerError::EmptyCommand {
        project: "fixture".to_owned(),
        task: "build".to_owned(),
    }
}

#[test]
fn a_failure_maps_onto_exactly_one_lifecycle_status() {
    assert_eq!(cancelled_task().status(), TaskStatus::Cancelled);
    assert_eq!(timed_out_task().status(), TaskStatus::TimedOut);
    assert_eq!(output_limit_task().status(), TaskStatus::OutputLimit);
    assert_eq!(empty_command().status(), TaskStatus::Failed);
}

#[test]
fn formats_simple_commands_without_shell_noise() {
    assert_eq!(
        format_command(&words(&["make", "build", "--locked"])),
        "make build --locked"
    );
}

#[test]
fn quotes_arguments_that_need_shell_safe_display() {
    assert_eq!(
        format_command(&words(&["echo", "hello world"])),
        "echo 'hello world'"
    );
}

fn timeout() -> Duration {
    Duration::from_secs(10)
}

fn first_interval() -> Duration {
    Duration {
        nanos: POLL_INTERVAL_START,
    }
}

#[test]
fn cancellation_outranks_every_other_condition() {
    assert_eq!(
        poll_decision(
            true,
            Some("stdout"),
            WaitOutcome::Exited,
            2,
            Duration::zero(),
            timeout(),
            first_interval(),
        ),
        PollDecision::Cancel
    );
}

#[test]
fn an_exceeded_stream_stops_the_task_before_the_exit_is_considered() {
    assert_eq!(
        poll_decision(
            false,
            Some("stderr"),
            WaitOutcome::Exited,
            2,
            Duration::zero(),
            timeout(),
            first_interval(),
        ),
        PollDecision::OutputLimit("stderr")
    );
}

#[test]
fn an_exit_wants_descendant_cleanup_until_both_readers_finish() {
    for (readers_done, descendants_may_hold_pipes) in [(0, true), (1, true), (2, false)] {
        assert_eq!(
            poll_decision(
                false,
                None,
                WaitOutcome::Exited,
                readers_done,
                Duration::zero(),
                timeout(),
                first_interval(),
            ),
            PollDecision::Exited {
                descendants_may_hold_pipes
            },
            "readers_done={readers_done}"
        );
    }
}

#[test]
fn a_running_child_past_its_timeout_times_out() {
    assert_eq!(
        poll_decision(
            false,
            None,
            WaitOutcome::Running,
            2,
            timeout(),
            timeout(),
            first_interval(),
        ),
        PollDecision::Timeout
    );
}

#[test]
fn a_running_child_sleeps_for_the_shorter_of_the_interval_and_the_remaining_time() {
    assert_eq!(
        poll_decision(
            false,
            None,
            WaitOutcome::Running,
            2,
            Duration::from_secs(9),
            timeout(),
            Duration::from_millis(5),
        ),
        PollDecision::Sleep(Duration::from_millis(5))
    );
    assert_eq!(
        poll_decision(
            false,
            None,
            WaitOutcome::Running,
            2,
            Duration::from_millis(9_999),
            timeout(),
            Duration::from_millis(5),
        ),
        PollDecision::Sleep(Duration::from_millis(1))
    );
}

#[test]
fn a_failed_wait_is_reported() {
    assert_eq!(
        poll_decision(
            false,
            None,
            WaitOutcome::Failed,
            2,
            Duration::zero(),
            timeout(),
            first_interval(),
        ),
        PollDecision::WaitFailed
    );
}

#[test]
fn the_poll_interval_doubles_up_to_the_cap() {
    assert_eq!(
        next_poll_interval(first_interval()).nanos,
        (POLL_INTERVAL_START * 2).min(POLL_INTERVAL_MAX)
    );
    assert_eq!(
        next_poll_interval(Duration {
            nanos: POLL_INTERVAL_MAX
        })
        .nanos,
        POLL_INTERVAL_MAX
    );
}

#[test]
fn runner_errors_expose_a_source_exactly_when_they_wrap_one() {
    let io = || IoError::new(IoErrorKind::NotFound, "missing");

    let with_source = [
        RunnerError::Spawn {
            project: "fixture".to_owned(),
            task: "build".to_owned(),
            command: words(&["tool"]),
            cwd: "/tmp".to_owned(),
            source: io(),
        },
        RunnerError::Wait {
            project: "fixture".to_owned(),
            task: "build".to_owned(),
            source: io(),
        },
        RunnerError::OutputRead {
            project: "fixture".to_owned(),
            task: "build".to_owned(),
            stream: "stdout",
            source: io(),
        },
        RunnerError::Terminate {
            project: "fixture".to_owned(),
            task: "build".to_owned(),
            reason: TerminationReason::Timeout,
            source: io(),
        },
    ];
    for error in &with_source {
        assert!(error.source().is_some(), "{}", error.message());
    }

    let bare = [
        empty_command(),
        failed_task(),
        timed_out_task(),
        output_limit_task(),
        cancelled_task(),
    ];
    for error in &bare {
        assert!(error.source().is_none(), "{}", error.message());
        assert!(!error.message().is_empty(), "{}", error.message());
    }
}

fn read(bytes: &[u8]) -> ChunkRead {
    ChunkRead {
        bytes: Ok(bytes.to_vec()),
        shown: Ok(()),
    }
}

fn broken_pipe(message: &str) -> IoError {
    IoError::new(IoErrorKind::BrokenPipe, message)
}

#[test]
fn read_stream_retains_bytes_up_to_the_exact_limit_without_a_notification() {
    let done = read_stream(&vec![read(b"12345678")], 8).expect("read succeeds");

    assert_eq!(done.capture.bytes, b"12345678");
    assert!(!done.capture.exceeded);
    assert_eq!(
        done.notifications, 0,
        "an exact-limit stream must not send a limit notification"
    );
}

#[test]
fn read_stream_truncates_and_reports_an_overflowing_stream_once() {
    let done = read_stream(&vec![read(b"123456789")], 8).expect("read succeeds");

    assert_eq!(
        done.shown, b"12345678",
        "only the visible prefix is shown"
    );
    assert_eq!(done.capture.bytes, b"12345678");
    assert!(done.capture.exceeded);
    assert_eq!(
        done.notifications, 1,
        "the stream name must be sent exactly once"
    );
}

#[test]
fn read_stream_returns_a_callback_io_error_to_the_reader() {
    let failing = ChunkRead {
        bytes: Ok(b"123".to_vec()),
        shown: Err(broken_pipe("consumer hung up")),
    };

    let error = read_stream(&vec![failing], 8).expect_err("a failing callback must fail the read");

    assert_eq!(error.kind, IoErrorKind::BrokenPipe);
}

#[test]
fn a_stream_past_its_limit_is_read_but_no_longer_shown() {
    let unshown = ChunkRead {
        bytes: Ok(b"789".to_vec()),
        shown: Err(broken_pipe("consumer hung up")),
    };
    let done = read_stream(&vec![read(b"1234"), read(b"56"), unshown], 5).unwrap();
    assert_eq!(done.capture.bytes, b"12345");
    assert_eq!(done.shown, b"12345");
    assert_eq!(done.notifications, 1);
}

#[test]
fn a_failing_read_fails_the_stream() {
    let failing = ChunkRead {
        bytes: Err(IoError::new(IoErrorKind::Other, "gone")),
        shown: Ok(()),
    };
    assert_eq!(
        read_stream(&vec![read(b"1"), failing, read(b"2")], 5)
            .unwrap_err()
            .message,
        "gone"
    );
}

/// A child whose `try_wait` and `wait` responses are scripted.
struct ScriptedChild {
    stdout_data: Vec<u8>,
    stderr_data: Vec<u8>,
    state: WaitReport,
    wait_response: Result<ProcessExit, IoError>,
    terminate_response: Result<(), IoError>,
    terminated: Vec<TerminationReason>,
    cancel_on_first_try_wait: Option<CancellationToken>,
    blocking_readers: bool,
    show_failure: Option<IoError>,
    clock: Duration,
}

fn exit(code: i32) -> ProcessExit {
    ProcessExit {
        code: Some(code),
        success: code == 0,
    }
}

fn child(state: WaitReport) -> ScriptedChild {
    ScriptedChild {
        stdout_data: Vec::new(),
        stderr_data: Vec::new(),
        state,
        wait_response: Ok(exit(0)),
        terminate_response: Ok(()),
        terminated: Vec::new(),
        cancel_on_first_try_wait: None,
        blocking_readers: false,
        show_failure: None,
        clock: Duration::zero(),
    }
}

impl ScriptedChild {
    fn capture(&self, data: &[u8], limit: usize) -> Result<StreamCapture, IoError> {
        if data.is_empty() {
            return Ok(StreamCapture::new());
        }
        let chunk = ChunkRead {
            bytes: Ok(data.to_vec()),
            shown: match &self.show_failure {
                Some(failure) => Err(failure.copy()),
                None => Ok(()),
            },
        };
        read_stream(&vec![chunk], limit).map(|done| done.capture)
    }

    fn run(&mut self, planned: PlannedTask) -> Result<TaskResult, RunnerError> {
        self.run_with(planned, None)
    }

    /// The state of the child; the first look may cancel the run.
    fn try_wait(&self, polls: usize) -> WaitReport {
        if let (1, Some(cancellation)) = (polls, &self.cancel_on_first_try_wait) {
            cancellation.cancel();
        }
        self.state.clone()
    }

    /// Carry out what the runner asks for until it reports the outcome.
    fn run_with(
        &mut self,
        planned: PlannedTask,
        cancellation: Option<&CancellationToken>,
    ) -> Result<TaskResult, RunnerError> {
        assert!(runnable(&planned));
        let limit = planned.max_output_bytes;
        let over = self.stdout_data.len() > limit;
        let mut runner = Runner::new(planned);
        let is_cancelled = || cancellation.is_some_and(CancellationToken::is_cancelled);
        let mut event = RunEvent::Begin { cancelled: is_cancelled() };
        let mut polls = 0;
        loop {
            event = match runner.run(event) {
                RunAction::Spawn => RunEvent::Spawned(Ok(())),
                RunAction::Poll => {
                    polls += 1;
                    let cancelled = is_cancelled();
                    RunEvent::Polled {
                        limit_hit: if over && polls == 1 { Some("stdout") } else { None },
                        cancelled,
                        wait: if cancelled { WaitReport::Running } else { self.try_wait(polls) },
                        readers_done: if self.blocking_readers && self.terminated.is_empty() {
                            0
                        } else {
                            2
                        },
                        elapsed: self.clock,
                    }
                }
                RunAction::Sleep(pause) => {
                    self.clock.nanos += pause.nanos;
                    RunEvent::Slept
                }
                RunAction::Terminate(reason) => {
                    self.terminated.push(reason);
                    RunEvent::Terminated(match &self.terminate_response {
                        Ok(()) => Ok(()),
                        Err(source) => Err(source.copy()),
                    })
                }
                RunAction::Reap => RunEvent::Reaped(match &self.wait_response {
                    Ok(exit) => Ok(*exit),
                    Err(source) => Err(source.copy()),
                }),
                RunAction::Join => RunEvent::Joined {
                    stdout: self.capture(&self.stdout_data, limit),
                    stderr: self.capture(&self.stderr_data, limit),
                    elapsed: self.clock,
                },
                RunAction::Finish(outcome) => return outcome,
            }
        }
    }
}

fn fake_planned_task(timeout_secs: u64) -> PlannedTask {
    PlannedTask {
        id: "build".to_owned(),
        project: "fixture".to_owned(),
        root: "/work".to_owned(),
        command: words(&["echo", "hi"]),
        stdin: StdinMode::Null,
        cwd: "/work".to_owned(),
        env: TextMap::new(),
        cache: false,
        inputs: Vec::new(),
        outputs: Vec::new(),
        cache_env: Vec::new(),
        timeout: Duration::from_secs(timeout_secs),
        max_output_bytes: 16 * 1024 * 1024,
        resource_group: None,
        retries: 0,
        retry_backoff: Duration::zero(),
        finalizer: false,
        depends_on: Vec::new(),
    }
}

#[test]
fn an_already_exited_tree_is_not_a_cleanup_failure() {
    let mut child = child(WaitReport::Exited(exit(0)));
    child.stdout_data = b"123456789".to_vec();
    let mut task = fake_planned_task(60);
    task.max_output_bytes = 8;

    let error = child.run(task).expect_err("the limit is reported");

    assert_eq!(child.terminated, vec![TerminationReason::OutputLimit]);
    assert!(
        !matches!(error, RunnerError::Terminate { .. }),
        "an already-exited tree is not a termination failure"
    );
}

#[test]
fn a_failed_terminate_on_a_running_child_is_reported() {
    let mut child = child(WaitReport::Running);
    child.terminate_response = Err(IoError::new(IoErrorKind::PermissionDenied, "denied"));

    let error = child
        .run(fake_planned_task(1))
        .expect_err("a live tree that cannot be signalled must be reported");

    assert!(matches!(
        error,
        RunnerError::Terminate {
            reason: TerminationReason::Timeout,
            ..
        }
    ));
}

#[test]
fn fake_timeout_returns_timed_out_without_real_waiting() {
    let mut child = child(WaitReport::Running);
    child.clock = Duration::from_secs(2);

    let result = child.run(fake_planned_task(1));

    assert!(
        matches!(&result, Err(RunnerError::TimedOut(..))),
        "expected TimedOut, got {result:?}"
    );
}

#[test]
fn fake_cancellation_terminates_child_and_returns_cancelled() {
    let cancel = CancellationToken::new();
    let mut child = child(WaitReport::Running);
    child.cancel_on_first_try_wait = Some(cancel.clone());

    // The child cancels the token during the first look at it.
    let result = child.run_with(fake_planned_task(60), Some(&cancel));

    assert!(
        matches!(&result, Err(RunnerError::Cancelled(..))),
        "expected Cancelled, got {result:?}"
    );
    assert_eq!(child.terminated, vec![TerminationReason::Cancellation]);
}

#[test]
fn fake_wait_error_returns_wait_and_joins_readers() {
    let mut child = child(WaitReport::Failed(IoError::new(IoErrorKind::Other, "broken")));
    child.stdout_data = b"x".to_vec();
    child.stderr_data = b"y".to_vec();
    child.wait_response = Err(IoError::new(IoErrorKind::Other, "broken"));

    let result = child.run(fake_planned_task(60));

    assert!(
        matches!(&result, Err(RunnerError::Wait { .. })),
        "expected Wait, got {result:?}"
    );
    assert_eq!(child.terminated, vec![TerminationReason::WaitFailure]);
}

#[test]
fn fake_callback_error_produces_output_read() {
    let mut child = child(WaitReport::Exited(exit(0)));
    child.stdout_data = b"hello".to_vec();
    child.show_failure = Some(broken_pipe("consumer failed"));

    let result = child.run(fake_planned_task(60));

    assert!(
        matches!(
            &result,
            Err(RunnerError::OutputRead {
                stream: "stdout",
                ..
            })
        ),
        "expected OutputRead stdout, got {result:?}"
    );
}

#[test]
fn fake_exit_unfinished_readers_invokes_descendant_cleanup() {
    let mut child = child(WaitReport::Exited(exit(0)));
    child.stdout_data = b"hello".to_vec();
    child.stderr_data = b"world".to_vec();
    child.blocking_readers = true;

    let result = child.run(fake_planned_task(60));

    assert!(result.is_ok(), "expected Ok, got {result:?}");
    assert_eq!(
        child.terminated,
        vec![TerminationReason::DescendantCleanup],
        "unfinished readers must trigger descendant cleanup"
    );
}

#[test]
fn fake_failed_exit_maps_status_code() {
    let mut child = child(WaitReport::Exited(exit(42)));
    child.stdout_data = b"error".to_vec();

    let result = child.run(fake_planned_task(60));

    match result {
        Err(RunnerError::Failed(ref failed)) => {
            assert_eq!(failed.code, Some(42), "exit code mismatch");
            assert_eq!(failed.output.stdout, b"error");
        }
        other => panic!("expected Failed, got {other:?}"),
    }
}

#[test]
fn stops_and_reports_when_task_output_exceeds_the_limit() {
    let mut child = child(WaitReport::Running);
    child.stdout_data = b"123456789".to_vec();
    let mut task = fake_planned_task(60);
    task.max_output_bytes = 8;

    let error = child.run(task).expect_err("task output must be bounded");

    assert!(
        matches!(error, RunnerError::OutputLimit(_)),
        "unexpected error: {error:?}"
    );
    assert!(error.message().contains("stdout output limit of 8 bytes"));
    assert_eq!(
        error.output().expect("partial output is retained").stdout,
        b"12345678"
    );
}

#[test]
fn a_finished_task_returns_what_it_wrote() {
    let mut child = child(WaitReport::Exited(exit(0)));
    child.stdout_data = b"stdout".to_vec();
    child.stderr_data = b"stderr".to_vec();

    let result = child.run(fake_planned_task(60)).expect("task succeeds");

    assert_eq!(result.output.stdout, b"stdout");
    assert_eq!(result.output.stderr, b"stderr");
    assert!(!result.cached);
    assert!(child.terminated.is_empty());
}

#[test]
fn a_cancelled_run_starts_no_process() {
    let mut runner = Runner::new(fake_planned_task(60));
    assert!(matches!(
        runner.run(RunEvent::Begin { cancelled: true }),
        RunAction::Finish(Err(RunnerError::Cancelled(_)))
    ));
}

#[test]
fn a_process_that_does_not_start_is_reported() {
    let mut runner = Runner::new(fake_planned_task(60));
    assert_eq!(
        runner.run(RunEvent::Begin { cancelled: false }),
        RunAction::Spawn
    );
    let missing = IoError::new(IoErrorKind::NotFound, "missing");
    assert!(matches!(
        runner.run(RunEvent::Spawned(Err(missing))),
        RunAction::Finish(Err(RunnerError::Spawn { .. }))
    ));
}

#[test]
fn the_process_is_the_command_of_the_task() {
    let spec = Runner::new(fake_planned_task(60)).process_spec();
    assert_eq!(spec.program, "echo");
    assert_eq!(spec.args, words(&["hi"]));
    assert_eq!(spec.cwd, "/work");
}

#[test]
fn a_task_outside_its_root_is_not_runnable() {
    let mut task = fake_planned_task(60);
    task.cwd = "/elsewhere".to_owned();
    assert!(!runnable(&task));
    let mut task = fake_planned_task(60);
    task.timeout = Duration::zero();
    assert!(!runnable(&task));
}

#[test]
fn a_token_stays_cancelled() {
    let token = CancellationToken::new();
    assert!(!token.is_cancelled());
    token.cancel();
    token.cancel();
    assert!(token.is_cancelled());
}

#[test]
fn a_token_is_cancelled_through_any_of_its_clones() {
    let token = CancellationToken::new();
    let clone = token.clone();
    let clone_of_clone = clone.clone();
    let other = CancellationToken::default();
    assert!(!token.is_cancelled() && !clone.is_cancelled() && !clone_of_clone.is_cancelled());

    clone_of_clone.cancel();

    assert!(token.is_cancelled() && clone.is_cancelled() && clone_of_clone.is_cancelled());
    assert!(token.clone().is_cancelled());
    assert!(!other.is_cancelled());
}

#[test]
fn a_read_of_nothing_ends_the_stream() {
    let unshown = ChunkRead {
        bytes: Ok(Vec::new()),
        shown: Err(IoError::new(IoErrorKind::Other, "gone")),
    };
    let broken = ChunkRead {
        bytes: Err(IoError::new(IoErrorKind::Other, "broken")),
        shown: Ok(()),
    };

    let done = read_stream(&vec![read(b"12"), unshown, read(b"34"), broken], 8).unwrap();

    assert_eq!(done.capture.bytes, b"12");
    assert_eq!(done.shown, b"12");
    assert_eq!(done.notifications, 0);
}

#[test]
fn quotes_are_displayed_so_that_a_shell_reads_them_back() {
    assert_eq!(
        format_command(&words(&["sh", "-c", "echo 'a b'", "it's", "back\\slash"])),
        "sh -c 'echo '\\''a b'\\''' 'it'\\''s' 'back\\slash'"
    );
    assert_eq!(format_command(&words(&["echo", ""])), "echo ");
}
