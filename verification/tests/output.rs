use mono::events::{ExecutionEvent, TaskStatus, TaskStream};
use mono::output::{Emission, OutputMode, OutputSink};
use mono::project::error::TaskNode;
use mono::runner::error::{FailedTask, RunnerError, TaskResult};
use mono::runner::stream::CapturedOutput;
use mono::scheduler::summary::ExecutionSummary;
use mono::time::Duration;

/// What a sink has written so far.
#[derive(Default)]
struct Captured {
    out: Vec<u8>,
    err: Vec<u8>,
    events: Vec<(u64, u64, ExecutionEvent)>,
    tui: Vec<ExecutionEvent>,
    ended: usize,
}

impl Captured {
    fn write(&mut self, emissions: Vec<Emission>) {
        for emission in emissions {
            match emission {
                Emission::Stdout(bytes) => self.out.extend(bytes),
                Emission::Stderr(bytes) => self.err.extend(bytes),
                Emission::Json {
                    run_id,
                    sequence,
                    event,
                } => self.events.push((run_id, sequence, event)),
                Emission::Tui(event) => self.tui.push(event),
                Emission::FinishTui => self.ended += 1,
            }
        }
    }

    fn out(&self) -> String {
        String::from_utf8(self.out.clone()).expect("rendered output is UTF-8")
    }

    fn err(&self) -> String {
        String::from_utf8(self.err.clone()).expect("rendered output is UTF-8")
    }
}

fn captured(mode: OutputMode, run_id: u64) -> (OutputSink, Captured) {
    (OutputSink::new(mode, run_id), Captured::default())
}

fn result(stdout: &[u8], cached: bool) -> TaskResult {
    TaskResult {
        output: CapturedOutput {
            stdout: stdout.to_vec(),
            stderr: Vec::new(),
        },
        elapsed: Duration::from_millis(42),
        cached,
    }
}

fn failure() -> RunnerError {
    RunnerError::Failed(Box::new(FailedTask {
        project: "fixture".to_owned(),
        task: "build".to_owned(),
        command: vec!["tool".to_owned()],
        cwd: "/tmp".to_owned(),
        code: Some(7),
        output: CapturedOutput {
            stdout: b"partial\n".to_vec(),
            stderr: b"broken\n".to_vec(),
        },
        elapsed: Duration::from_millis(42),
    }))
}

#[test]
fn terminal_renders_a_golden_transcript() {
    let (mut sink, mut seen) = captured(OutputMode::Terminal, 1);
    let node = TaskNode::new("build");

    seen.write(sink.present_start(&node));
    seen.write(sink.present_attempt(&node, 2, 3));
    seen.write(sink.present_success(&node, &result(b"hello\n", false)));

    assert_eq!(seen.out(), "hello\n");
    assert_eq!(
        seen.err(),
        "\u{25b6} build\n\u{21bb} build: retry 2/3\nbuild: completed in 42ms\n"
    );
}

#[test]
fn terminal_marks_a_cache_hit() {
    let (mut sink, mut seen) = captured(OutputMode::Terminal, 1);
    let node = TaskNode::new("build");

    seen.write(sink.present_success(&node, &result(b"cached\n", true)));

    assert_eq!(seen.out(), "cached\n");
    assert_eq!(seen.err(), "build: cache hit in 42ms\n");
}

#[test]
fn live_streams_bytes_once_and_keeps_status_on_stderr() {
    let (mut sink, mut seen) = captured(OutputMode::Stream, 1);
    let node = TaskNode::new("build");

    seen.write(sink.present_start(&node));
    seen.write(sink.present_live_output(&node, TaskStream::Stdout, b"streamed".to_vec()));
    seen.write(sink.present_success(&node, &result(b"streamed", false)));

    assert_eq!(seen.out(), "[build] streamed\n");
    assert_eq!(seen.err(), "\u{25b6} build\n└─ build: completed in 42ms\n");
}

#[test]
fn live_frames_interleaved_tasks_and_flushes_each_partial_line() {
    let (mut sink, mut seen) = captured(OutputMode::Stream, 1);
    let api = TaskNode::new("api");
    let web = TaskNode::new("web");

    seen.write(sink.present_live_output(&api, TaskStream::Stdout, b"api ".to_vec()));
    seen.write(sink.present_live_output(&web, TaskStream::Stdout, b"web\n".to_vec()));
    seen.write(sink.present_live_output(&api, TaskStream::Stdout, b"done".to_vec()));
    seen.write(sink.present_success(&api, &result(b"api done", false)));

    assert_eq!(seen.out(), "[web] web\n[api] api done\n");
    assert!(seen.err().contains("└─ api: completed"), "{}", seen.err());
}

#[test]
fn json_writes_one_identified_object_per_line_through_the_production_path() {
    let (mut sink, mut seen) = captured(OutputMode::Json, 7);
    let node = TaskNode::new("build");

    seen.write(sink.present_run_start("/workspace", 1));
    seen.write(sink.present_start(&node));
    seen.write(sink.present_success(&node, &result(b"hello\n", false)));

    assert!(seen.err().is_empty(), "JSON writes nothing to stderr");
    assert!(seen.out().is_empty());

    assert_eq!(seen.events.len(), 4);
    assert!(matches!(seen.events[0].2, ExecutionEvent::RunStarted { .. }));
    assert!(matches!(seen.events[1].2, ExecutionEvent::TaskStarted { .. }));
    assert!(matches!(seen.events[2].2, ExecutionEvent::TaskOutput { .. }));
    assert!(matches!(seen.events[3].2, ExecutionEvent::TaskFinished { .. }));
    assert!(seen.events.iter().all(|event| event.0 == 7));
    assert_eq!(
        seen.events.iter().map(|event| event.1).collect::<Vec<_>>(),
        vec![0, 1, 2, 3]
    );
}

#[test]
fn json_run_finished_carries_the_summary_counts() {
    let (mut sink, mut seen) = captured(OutputMode::Json, 7);
    let summary = ExecutionSummary {
        completed: 2,
        cached: 1,
        failed: 0,
        cancelled: 0,
        blocked: 0,
    };

    seen.write(sink.present_run_finished(&summary));

    assert_eq!(seen.events.len(), 1);
    assert!(matches!(
        seen.events[0].2,
        ExecutionEvent::RunFinished {
            completed: 2,
            cached: 1,
            ..
        }
    ));
}

#[test]
fn json_preserves_non_utf8_task_output_as_bytes() {
    let (mut sink, mut seen) = captured(OutputMode::Json, 7);
    let node = TaskNode::new("build");

    seen.write(sink.present_success(&node, &result(&[0u8, 255u8, 10u8], false)));

    let ExecutionEvent::TaskOutput { bytes, .. } = &seen.events[0].2 else {
        panic!("the output comes first")
    };
    assert_eq!(*bytes, vec![0u8, 255u8, 10u8]);
}

#[test]
fn every_mode_renders_a_blocked_task() {
    let node = TaskNode::new("build");

    for mode in [OutputMode::Terminal, OutputMode::Stream] {
        let (mut sink, mut seen) = captured(mode, 1);
        seen.write(sink.present_blocked(&node));
        let rendered = format!("{}{}", seen.out(), seen.err());
        assert!(rendered.contains("blocked"), "{mode:?}: {rendered}");
    }

    let (mut sink, mut seen) = captured(OutputMode::Json, 1);
    seen.write(sink.present_blocked(&node));
    assert!(matches!(
        seen.events[0].2,
        ExecutionEvent::TaskFinished {
            status: TaskStatus::Blocked,
            ..
        }
    ));
}

#[test]
fn run_finished_renders_only_in_json_mode() {
    let summary = ExecutionSummary {
        completed: 1,
        cached: 0,
        failed: 0,
        cancelled: 0,
        blocked: 0,
    };

    for mode in [OutputMode::Terminal, OutputMode::Stream] {
        let (mut sink, mut seen) = captured(mode, 1);
        seen.write(sink.present_run_finished(&summary));
        assert!(
            seen.out().is_empty() && seen.err().is_empty(),
            "{mode:?} must leave the summary to the CLI transport, not render it: {}{}",
            seen.out(),
            seen.err()
        );
    }

    let (mut sink, mut seen) = captured(OutputMode::Json, 1);
    seen.write(sink.present_run_finished(&summary));
    assert!(matches!(
        seen.events[0].2,
        ExecutionEvent::RunFinished { .. }
    ));
}

#[test]
fn a_failure_shows_what_the_task_wrote() {
    let (mut sink, mut seen) = captured(OutputMode::Terminal, 1);
    seen.write(sink.present_failure(&TaskNode::new("build"), &failure()));
    assert_eq!(seen.out(), "partial\n");
    assert!(seen.err().starts_with("broken\n"), "{}", seen.err());
    assert!(seen.err().contains("build: failed"), "{}", seen.err());
}

#[test]
fn an_interactive_run_keeps_failures_until_it_ends() {
    let (mut sink, mut seen) = captured(OutputMode::Tui, 1);
    assert!(sink.is_live());
    let node = TaskNode::new("build");
    seen.write(sink.present_start(&node));
    seen.write(sink.present_failure(&node, &failure()));
    assert_eq!(seen.ended, 0);
    assert!(seen.out().is_empty() && seen.err().is_empty());
    let summary = ExecutionSummary {
        completed: 0,
        cached: 0,
        failed: 1,
        cancelled: 0,
        blocked: 0,
    };
    seen.write(sink.present_run_finished(&summary));
    assert_eq!(seen.ended, 1);
    assert!(seen.err().contains("partial\n"), "{}", seen.err());
    assert!(seen.err().contains("broken\n"), "{}", seen.err());
}

#[test]
fn only_live_modes_ask_for_output_as_it_arrives() {
    assert!(!OutputSink::new(OutputMode::Terminal, 1).is_live());
    assert!(OutputSink::new(OutputMode::Stream, 1).is_live());
}
