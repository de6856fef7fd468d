use mono::events::{ExecutionEvent, TaskStatus, TaskStream, EXECUTION_EVENT_SCHEMA};
use mono::project::error::TaskNode;
use mono::stream_output::StreamFormatter;
use mono::time::Duration;
use mono::tui::{Key, TaskView, TuiApp, TuiMessage, MAX_LINES_PER_TASK};

fn bytes(text: &str) -> Vec<u8> {
    text.as_bytes().to_vec()
}

#[test]
fn status_labels_are_distinct_and_non_empty() {
    let labels = [
        TaskStatus::Completed,
        TaskStatus::Cached,
        TaskStatus::Failed,
        TaskStatus::TimedOut,
        TaskStatus::OutputLimit,
        TaskStatus::Cancelled,
        TaskStatus::Blocked,
    ]
    .map(TaskStatus::label);

    for label in labels {
        assert!(!label.is_empty());
    }
    let mut sorted = labels.to_vec();
    sorted.sort_unstable();
    sorted.dedup();
    assert_eq!(sorted.len(), labels.len(), "two statuses share a label");
}

#[test]
fn events_carry_the_schema_and_what_happened() {
    let node = TaskNode::new("build");
    assert_eq!(
        ExecutionEvent::task_finished(&node, TaskStatus::Completed, Duration::from_millis(1500)),
        ExecutionEvent::TaskFinished {
            schema: EXECUTION_EVENT_SCHEMA,
            task: "build".to_owned(),
            status: TaskStatus::Completed,
            elapsed_ms: 1500,
        }
    );
    assert_eq!(
        ExecutionEvent::run_started("/workspace".to_owned(), 2),
        ExecutionEvent::RunStarted {
            schema: EXECUTION_EVENT_SCHEMA,
            project: "/workspace".to_owned(),
            task_count: 2,
        }
    );
}

#[test]
fn prefixes_complete_lines() {
    let mut formatter = StreamFormatter::new();

    assert_eq!(
        formatter.push("api", TaskStream::Stdout, &bytes("one\ntwo\n")),
        b"[api] one\n[api] two\n"
    );
}

#[test]
fn holds_partial_chunks_until_a_newline_arrives() {
    let mut formatter = StreamFormatter::new();

    assert!(formatter
        .push("api", TaskStream::Stdout, &bytes("one"))
        .is_empty());
    assert_eq!(
        formatter.push("api", TaskStream::Stdout, &bytes("\ntwo\n")),
        b"[api] one\n[api] two\n"
    );
}

#[test]
fn keeps_task_and_stream_buffers_independent() {
    let mut formatter = StreamFormatter::new();

    assert!(formatter
        .push("api", TaskStream::Stdout, &bytes("api"))
        .is_empty());
    assert_eq!(
        formatter.push("web", TaskStream::Stdout, &bytes("web\n")),
        b"[web] web\n"
    );
    assert_eq!(
        formatter.push("api", TaskStream::Stderr, &bytes("warning\n")),
        b"[api] warning\n"
    );
    assert_eq!(
        formatter.finish("api"),
        vec![(TaskStream::Stdout, b"[api] api\n".to_vec())]
    );
}

#[test]
fn finishing_an_empty_or_already_terminated_task_is_noop() {
    let mut formatter = StreamFormatter::new();

    assert!(formatter.finish("missing").is_empty());
    assert_eq!(
        formatter.push("api", TaskStream::Stdout, &bytes("done\n")),
        b"[api] done\n"
    );
    assert!(formatter.finish("api").is_empty());
}

#[test]
fn how_the_bytes_are_cut_into_chunks_does_not_matter() {
    let whole = "one\ntwo\nthree";
    let mut at_once = StreamFormatter::new();
    let mut expected = at_once.push("api", TaskStream::Stdout, &bytes(whole));
    for (_, rest) in at_once.finish("api") {
        expected.extend(rest);
    }
    let mut piecewise = StreamFormatter::new();
    let mut written = Vec::new();
    for byte in whole.bytes() {
        written.extend(piecewise.push("api", TaskStream::Stdout, &vec![byte]));
    }
    for (_, rest) in piecewise.finish("api") {
        written.extend(rest);
    }
    assert_eq!(written, expected);
    assert_eq!(written, bytes("[api] one\n[api] two\n[api] three\n"));
}

#[test]
fn task_view_keeps_output_separate_by_stream_and_flushes_partial_lines() {
    let mut task = TaskView::new("build");
    task.append(TaskStream::Stdout, &bytes("hello"));
    task.append(TaskStream::Stderr, &bytes("warning\n"));
    task.flush_partial();

    assert_eq!(
        task.lines,
        vec!["! warning".to_owned(), "hello".to_owned()]
    );
}

#[test]
fn task_view_evicts_old_lines_at_the_scrollback_limit() {
    let mut task = TaskView::new("build");
    for index in 0..=MAX_LINES_PER_TASK {
        task.append(TaskStream::Stdout, &bytes(&format!("{index}\n")));
    }

    assert_eq!(task.lines.len(), MAX_LINES_PER_TASK);
    assert_eq!(task.lines.first().expect("oldest line"), "1");
}

#[test]
fn the_screen_follows_the_events_and_the_keys() {
    let mut app = TuiApp::new();
    let build = TaskNode::new("build");
    let test = TaskNode::new("test");
    app.apply(TuiMessage::Event(ExecutionEvent::task_started(&build)));
    app.apply(TuiMessage::Event(ExecutionEvent::task_started(&test)));
    assert_eq!(app.tasks.len(), 2);
    assert_eq!(app.selected, 0);
    app.handle_key(Key::Down);
    assert_eq!(app.selected, 1);
    app.handle_key(Key::Up);
    assert_eq!(app.selected, 0);
    app.apply(TuiMessage::Event(ExecutionEvent::task_finished(
        &build,
        TaskStatus::Completed,
        Duration::from_millis(20),
    )));
    assert_eq!(app.tasks[0].status, Some(TaskStatus::Completed));
    assert_eq!(app.tasks[0].elapsed_ms, Some(20));
    app.apply(TuiMessage::Finish);
    assert!(app.finished);
}

#[test]
fn task_status_serializes_to_its_documented_token() {
    for (status, token) in [
        (TaskStatus::Completed, "completed"),
        (TaskStatus::Cached, "cached"),
        (TaskStatus::Failed, "failed"),
        (TaskStatus::TimedOut, "timed_out"),
        (TaskStatus::OutputLimit, "output_limit"),
        (TaskStatus::Cancelled, "cancelled"),
        (TaskStatus::Blocked, "blocked"),
    ] {
        assert_eq!(status.token(), token);
    }
}

#[test]
fn task_stream_serializes_to_its_documented_token() {
    assert_eq!(TaskStream::Stdout.token(), "stdout");
    assert_eq!(TaskStream::Stderr.token(), "stderr");
}

#[test]
fn every_event_carries_its_name_tag_and_schema() {
    let node = TaskNode::new("build");
    let events = [
        (
            ExecutionEvent::run_started("/workspace".to_owned(), 2),
            "run_started",
        ),
        (ExecutionEvent::task_started(&node), "task_started"),
        (
            ExecutionEvent::task_output(&node, TaskStream::Stdout, b"hi".to_vec()),
            "task_output",
        ),
        (
            ExecutionEvent::task_attempt_started(&node, 2, 3),
            "task_attempt_started",
        ),
        (
            ExecutionEvent::task_finished(&node, TaskStatus::Completed, Duration::zero()),
            "task_finished",
        ),
        (ExecutionEvent::run_finished(1, 0, 0, 0, 0), "run_finished"),
    ];

    for (event, name) in events {
        assert_eq!(event.name(), name, "{event:?}");
        assert_eq!(event.schema(), EXECUTION_EVENT_SCHEMA, "{event:?}");
    }
}
