//! What each way of presenting a finished task promises.

use vstd::prelude::*;

use crate::events::{EventView, TaskStatus, TaskStream, EXECUTION_EVENT_SCHEMA};
use crate::output::{
    failure_items, failure_stream, failure_text, failures_text, finished_event, finished_text,
    flushed_lines, kept_failure, line_terminated, live_output, output_event, output_items,
    raw_items, rendered_event, rendered_items, retry_text, status_line, stream_item, success_items,
    whole_output, EmissionView, ItemView, OutputMode, SinkView, TuiFailureView,
};
use crate::runner::error::{fault_elapsed, fault_output, fault_status, RunnerFault, TaskResultView};
use crate::runner::stream::CapturedView;
use crate::stream_output::{
    completed_by, flushed, framed_lines, held, law_a_chunk_continues_what_is_held,
    law_chunks_do_not_matter, law_held_lines_are_written_at_the_end,
    law_nothing_complete_is_held_back, prefixed, unterminated, Partials,
};
use crate::text::decimal;

verus! {

/// The bytes of a stream of a task that JSON events carry, put together.
pub open spec fn json_bytes(
    emissions: Seq<EmissionView>,
    task: Seq<char>,
    stream: TaskStream,
) -> Seq<u8>
    decreases emissions.len(),
{
    if emissions.len() == 0 {
        Seq::empty()
    } else {
        json_bytes(emissions.drop_last(), task, stream) + (match emissions.last() {
            EmissionView::Json {
                event: EventView::TaskOutput { task: of, stream: on, bytes, .. },
                ..
            } => if of == task && on == stream {
                bytes
            } else {
                Seq::empty()
            },
            _ => Seq::empty(),
        })
    }
}

/// The bytes that go to one of the two handles, put together.
pub open spec fn handle_bytes(emissions: Seq<EmissionView>, to_stderr: bool) -> Seq<u8>
    decreases emissions.len(),
{
    if emissions.len() == 0 {
        Seq::empty()
    } else {
        handle_bytes(emissions.drop_last(), to_stderr) + (match emissions.last() {
            EmissionView::Stdout(bytes) => if to_stderr {
                Seq::empty()
            } else {
                bytes
            },
            EmissionView::Stderr(bytes) => if to_stderr {
                bytes
            } else {
                Seq::empty()
            },
            _ => Seq::empty(),
        })
    }
}

/// Whether a failure left some output.
pub open spec fn left_output(fault: RunnerFault, output: CapturedView) -> bool {
    ||| fault matches RunnerFault::Failed { output: left, .. } && left == output
    ||| fault matches RunnerFault::TimedOut { output: left, .. } && left == output
    ||| fault matches RunnerFault::OutputLimit { output: left, .. } && left == output
    ||| fault matches RunnerFault::Cancelled { output: left, .. } && left == output
}

/// Whether the emissions end with one event for the end of the task, which no
/// other event for an end precedes.
pub open spec fn ends_once(
    emissions: Seq<EmissionView>,
    task: Seq<char>,
    status: TaskStatus,
    elapsed_ms: u128,
) -> bool {
    &&& emissions.len() > 0
    &&& emissions.last() matches EmissionView::Json {
        event: EventView::TaskFinished { task: of, status: is, elapsed_ms: after, .. },
        ..
    } && of == task && is == status && after == elapsed_ms
    &&& forall|i: int|
        0 <= i < emissions.len() - 1 ==> ((#[trigger] emissions[i]) matches EmissionView::Json {
            event: EventView::TaskOutput { .. },
            ..
        })
}

/// Where output is JSON, the bytes of the events for a task that succeeded, put
/// together, are what it printed, and one event says how it ended.
pub proof fn law_json_keeps_the_output_of_a_success(
    sink: SinkView,
    task: Seq<char>,
    result: TaskResultView,
)
    requires
        sink.mode == OutputMode::Json,
    ensures
        ({
            let emitted = rendered_items(sink, success_items(sink.mode, task, result)).1;
            &&& json_bytes(emitted, task, TaskStream::Stdout) == result.output.stdout
            &&& json_bytes(emitted, task, TaskStream::Stderr) == result.output.stderr
            &&& ends_once(
                emitted,
                task,
                if result.cached {
                    TaskStatus::Cached
                } else {
                    TaskStatus::Completed
                },
                result.elapsed.nanos / 1_000_000,
            )
        }),
{
    let status = if result.cached {
        TaskStatus::Cached
    } else {
        TaskStatus::Completed
    };
    lemma_json_items(sink, task, result.output, status, result.elapsed.nanos);
}

/// Where output is JSON, the bytes of the events for a task that failed, put
/// together, are what it had printed, and one event says how it ended.
pub proof fn law_json_keeps_the_output_of_a_failure(
    sink: SinkView,
    task: Seq<char>,
    fault: RunnerFault,
    output: CapturedView,
)
    requires
        sink.mode == OutputMode::Json,
        left_output(fault, output),
    ensures
        ({
            let emitted = rendered_items(sink, failure_items(sink.mode, task, fault)).1;
            &&& json_bytes(emitted, task, TaskStream::Stdout) == output.stdout
            &&& json_bytes(emitted, task, TaskStream::Stderr) == output.stderr
            &&& fault matches RunnerFault::Failed { elapsed, .. } ==> ends_once(
                emitted,
                task,
                TaskStatus::Failed,
                elapsed.nanos / 1_000_000,
            )
            &&& fault matches RunnerFault::TimedOut { elapsed, .. } ==> ends_once(
                emitted,
                task,
                TaskStatus::TimedOut,
                elapsed.nanos / 1_000_000,
            )
            &&& fault matches RunnerFault::OutputLimit { elapsed, .. } ==> ends_once(
                emitted,
                task,
                TaskStatus::OutputLimit,
                elapsed.nanos / 1_000_000,
            )
            &&& fault matches RunnerFault::Cancelled { elapsed, .. } ==> ends_once(
                emitted,
                task,
                TaskStatus::Cancelled,
                elapsed.nanos / 1_000_000,
            )
        }),
{
    lemma_json_items(
        sink,
        task,
        output,
        fault_status(fault),
        fault_elapsed(fault)->0.nanos,
    );
}

/// A task that failed before it could print anything is reported by one event
/// for its end.
pub proof fn law_json_reports_a_failure_without_output(
    sink: SinkView,
    task: Seq<char>,
    fault: RunnerFault,
)
    requires
        sink.mode == OutputMode::Json,
        forall|output: CapturedView| !#[trigger] left_output(fault, output),
    ensures
        ({
            let emitted = rendered_items(sink, failure_items(sink.mode, task, fault)).1;
            emitted.len() == 1 && ends_once(emitted, task, TaskStatus::Failed, 0)
        }),
{
    if let Some(output) = fault_output(fault) {
        assert(left_output(fault, output));
    }
    let items = failure_items(sink.mode, task, fault);
    assert(items.drop_last() =~= Seq::<ItemView>::empty());
    assert(rendered_items(sink, items.drop_last()) == (sink, Seq::<EmissionView>::empty()));
}

proof fn lemma_json_step(sink: SinkView, items: Seq<ItemView>, event: EventView)
    requires
        sink.mode == OutputMode::Json,
        rendered_items(sink, items).0.mode == OutputMode::Json,
    ensures
        ({
            let (before, written) = rendered_items(sink, items);
            let (after, now) = rendered_items(sink, items.push(ItemView::Event(event)));
            &&& after.mode == OutputMode::Json
            &&& now == written.push(
                EmissionView::Json { run_id: before.run_id, sequence: before.sequence, event },
            )
        }),
{
    let more = items.push(ItemView::Event(event));
    assert(more.drop_last() =~= items);
    let (before, written) = rendered_items(sink, items);
    assert(rendered_items(sink, more).1 =~= written.push(
        EmissionView::Json { run_id: before.run_id, sequence: before.sequence, event },
    ));
}

proof fn lemma_json_push(
    emissions: Seq<EmissionView>,
    emission: EmissionView,
    task: Seq<char>,
    stream: TaskStream,
)
    ensures
        json_bytes(emissions.push(emission), task, stream) == json_bytes(emissions, task, stream) + (
        match emission {
            EmissionView::Json {
                event: EventView::TaskOutput { task: of, stream: on, bytes, .. },
                ..
            } => if of == task && on == stream {
                bytes
            } else {
                Seq::empty()
            },
            _ => Seq::empty(),
        }),
{
    assert(emissions.push(emission).drop_last() =~= emissions);
}

proof fn lemma_json_items(
    sink: SinkView,
    task: Seq<char>,
    output: CapturedView,
    status: TaskStatus,
    nanos: u128,
)
    requires
        sink.mode == OutputMode::Json,
    ensures
        ({
            let items = output_items(task, output).push(finished_event(task, status, nanos));
            let emitted = rendered_items(sink, items).1;
            &&& json_bytes(emitted, task, TaskStream::Stdout) == output.stdout
            &&& json_bytes(emitted, task, TaskStream::Stderr) == output.stderr
            &&& ends_once(emitted, task, status, nanos / 1_000_000)
        }),
{
    let none = Seq::<ItemView>::empty();
    let nothing = Seq::<EmissionView>::empty();
    let out_event = output_event(task, TaskStream::Stdout, output.stdout);
    let err_event = output_event(task, TaskStream::Stderr, output.stderr);
    let end = finished_event(task, status, nanos)->Event_0;
    assert(rendered_items(sink, none) == (sink, nothing));
    let first = stream_item(task, TaskStream::Stdout, output.stdout);
    let second = output_items(task, output);
    if output.stdout.len() > 0 {
        lemma_json_step(sink, none, out_event);
        assert(none.push(ItemView::Event(out_event)) =~= first);
    } else {
        assert(first =~= none);
    }
    if output.stderr.len() > 0 {
        lemma_json_step(sink, first, err_event);
        assert(first.push(ItemView::Event(err_event)) =~= second);
    } else {
        assert(second =~= first);
    }
    lemma_json_step(sink, second, end);
    let (s0, e0) = rendered_items(sink, none);
    let (s1, e1) = rendered_items(sink, first);
    let (s2, e2) = rendered_items(sink, second);
    assert forall|stream: TaskStream| #[trigger]
        json_bytes(e2.push(
            EmissionView::Json { run_id: s2.run_id, sequence: s2.sequence, event: end },
        ), task, stream) == (match stream {
        TaskStream::Stdout => output.stdout,
        TaskStream::Stderr => output.stderr,
    }) by {
        lemma_json_push(
            e2,
            EmissionView::Json { run_id: s2.run_id, sequence: s2.sequence, event: end },
            task,
            stream,
        );
        lemma_json_push(
            e1,
            EmissionView::Json { run_id: s1.run_id, sequence: s1.sequence, event: err_event },
            task,
            stream,
        );
        lemma_json_push(
            e0,
            EmissionView::Json { run_id: s0.run_id, sequence: s0.sequence, event: out_event },
            task,
            stream,
        );
        assert(json_bytes(nothing, task, stream) =~= Seq::<u8>::empty());
        let e3 = json_bytes(
            e2.push(EmissionView::Json { run_id: s2.run_id, sequence: s2.sequence, event: end }),
            task,
            stream,
        );
        match stream {
            TaskStream::Stdout => {
                assert(e3 =~= output.stdout);
            },
            TaskStream::Stderr => {
                assert(e3 =~= output.stderr);
            },
        }
    }
}

/// The events of a task are numbered one after the other, and all carry the
/// identity of the run; nothing else is written.
pub proof fn law_json_items_are_numbered(sink: SinkView, items: Seq<ItemView>)
    requires
        sink.mode == OutputMode::Json,
        sink.sequence + items.len() <= u64::MAX,
        forall|i: int| 0 <= i < items.len() ==> (#[trigger] items[i]) is Event,
    ensures
        ({
            let (after, emitted) = rendered_items(sink, items);
            &&& emitted.len() == items.len()
            &&& after == SinkView { sequence: (sink.sequence + items.len()) as u64, ..sink }
            &&& forall|i: int|
                0 <= i < items.len() ==> (#[trigger] emitted[i]) == (EmissionView::Json {
                    run_id: sink.run_id,
                    sequence: (sink.sequence + i) as u64,
                    event: items[i]->Event_0,
                })
        }),
    decreases items.len(),
{
    if items.len() > 0 {
        let front = items.drop_last();
        assert forall|i: int| 0 <= i < front.len() implies (#[trigger] front[i]) is Event by {
            assert(front[i] == items[i]);
        }
        law_json_items_are_numbered(sink, front);
        let (after, emitted) = rendered_items(sink, items);
        let earlier = rendered_items(sink, front).1;
        assert(items.last() == items[items.len() - 1]);
        assert forall|i: int| 0 <= i < items.len() implies (#[trigger] emitted[i]) == (
        EmissionView::Json {
            run_id: sink.run_id,
            sequence: (sink.sequence + i) as u64,
            event: items[i]->Event_0,
        }) by {
            if i < front.len() {
                assert(emitted[i] == earlier[i]);
            }
        }
    }
}

/// Bytes that are made to end with a newline gain one where they lack it, and
/// are otherwise as they were.
pub proof fn law_output_ends_with_a_newline(bytes: Seq<u8>)
    ensures
        line_terminated(bytes).len() > 0 && line_terminated(bytes).last() == 10,
        bytes.len() > 0 && bytes.last() == 10 ==> line_terminated(bytes) == bytes,
        bytes.len() == 0 || bytes.last() != 10 ==> line_terminated(bytes) == bytes + seq![10u8],
{
    assert(bytes.push(10) =~= bytes + seq![10u8]);
}

/// What a finished task printed, as it is shown at its end.
pub open spec fn shown(bytes: Seq<u8>) -> Seq<u8> {
    if bytes.len() == 0 {
        Seq::empty()
    } else {
        line_terminated(bytes)
    }
}

/// On a terminal the standard output gets what the task printed there, whether
/// it succeeded or failed, and the standard error what it printed there and
/// then one line about its end.
pub proof fn law_a_terminal_shows_the_whole_output(
    sink: SinkView,
    task: Seq<char>,
    result: TaskResultView,
    fault: RunnerFault,
    output: CapturedView,
)
    requires
        sink.mode == OutputMode::Terminal,
        left_output(fault, output),
    ensures
        ({
            let emitted = rendered_items(sink, success_items(sink.mode, task, result)).1;
            &&& handle_bytes(emitted, false) == shown(result.output.stdout)
            &&& handle_bytes(emitted, true) == shown(result.output.stderr) + vstd::utf8::encode_utf8(
                finished_text(
                    task,
                    if result.cached {
                        TaskStatus::Cached
                    } else {
                        TaskStatus::Completed
                    },
                    result.elapsed.nanos / 1_000_000,
                ) + "\n"@,
            )
        }),
        ({
            let emitted = rendered_items(sink, failure_items(sink.mode, task, fault)).1;
            &&& handle_bytes(emitted, false) == shown(output.stdout)
            &&& shown(output.stderr).is_prefix_of(handle_bytes(emitted, true))
        }),
{
    let status = if result.cached {
        TaskStatus::Cached
    } else {
        TaskStatus::Completed
    };
    lemma_terminal_items(sink, task, result.output, status, result.elapsed.nanos);
    lemma_terminal_items(
        sink,
        task,
        output,
        fault_status(fault),
        fault_elapsed(fault)->0.nanos,
    );
}

proof fn lemma_handle_add(a: Seq<EmissionView>, b: Seq<EmissionView>, to_stderr: bool)
    ensures
        handle_bytes(a + b, to_stderr) == handle_bytes(a, to_stderr) + handle_bytes(b, to_stderr),
    decreases b.len(),
{
    if b.len() == 0 {
        assert(a + b =~= a);
        assert(handle_bytes(a, to_stderr) + handle_bytes(b, to_stderr) =~= handle_bytes(
            a,
            to_stderr,
        ));
    } else {
        lemma_handle_add(a, b.drop_last(), to_stderr);
        assert((a + b).drop_last() =~= a + b.drop_last());
        assert(handle_bytes(a + b, to_stderr) =~= handle_bytes(a, to_stderr) + handle_bytes(
            b,
            to_stderr,
        ));
    }
}

proof fn lemma_handle_one(emission: EmissionView, to_stderr: bool)
    ensures
        handle_bytes(seq![emission], to_stderr) == (match emission {
            EmissionView::Stdout(bytes) => if to_stderr {
                Seq::empty()
            } else {
                bytes
            },
            EmissionView::Stderr(bytes) => if to_stderr {
                bytes
            } else {
                Seq::empty()
            },
            _ => Seq::empty(),
        }),
{
    let none = Seq::<EmissionView>::empty();
    assert(seq![emission].drop_last() =~= none);
    assert(handle_bytes(none, to_stderr) =~= Seq::<u8>::empty());
    assert(handle_bytes(seq![emission], to_stderr) =~= (match emission {
        EmissionView::Stdout(bytes) => if to_stderr {
            Seq::empty()
        } else {
            bytes
        },
        EmissionView::Stderr(bytes) => if to_stderr {
            bytes
        } else {
            Seq::empty()
        },
        _ => Seq::empty(),
    }));
}

proof fn lemma_whole_output(to_stderr: bool, bytes: Seq<u8>, handle: bool)
    ensures
        handle_bytes(whole_output(to_stderr, bytes), handle) == (if handle == to_stderr {
            shown(bytes)
        } else {
            Seq::empty()
        }),
{
    if bytes.len() > 0 {
        lemma_handle_one(whole_output(to_stderr, bytes)[0], handle);
        assert(whole_output(to_stderr, bytes) =~= seq![whole_output(to_stderr, bytes)[0]]);
    }
}

proof fn lemma_terminal_items(
    sink: SinkView,
    task: Seq<char>,
    output: CapturedView,
    status: TaskStatus,
    nanos: u128,
)
    requires
        sink.mode == OutputMode::Terminal,
    ensures
        ({
            let items = raw_items(output).push(finished_event(task, status, nanos));
            let emitted = rendered_items(sink, items).1;
            &&& handle_bytes(emitted, false) == shown(output.stdout)
            &&& handle_bytes(emitted, true) == shown(output.stderr) + vstd::utf8::encode_utf8(
                finished_text(task, status, nanos / 1_000_000) + "\n"@,
            )
        }),
{
    let items = raw_items(output).push(finished_event(task, status, nanos));
    let one = seq![raw_items(output)[0]];
    let none = Seq::<ItemView>::empty();
    assert(items.drop_last() =~= raw_items(output));
    assert(raw_items(output).drop_last() =~= one);
    assert(one.drop_last() =~= none);
    let a = whole_output(false, output.stdout);
    let b = whole_output(true, output.stderr);
    let c = status_line(finished_text(task, status, nanos / 1_000_000));
    assert(rendered_items(sink, none) == (sink, Seq::<EmissionView>::empty()));
    assert(rendered_items(sink, one).1 =~= a);
    assert(rendered_items(sink, raw_items(output)).1 =~= a + b);
    let emitted = rendered_items(sink, items).1;
    assert(emitted =~= a + b + c);
    assert forall|handle: bool| #[trigger] handle_bytes(emitted, handle) == handle_bytes(a, handle)
        + handle_bytes(b, handle) + handle_bytes(c, handle) by {
        lemma_handle_add(a + b, c, handle);
        lemma_handle_add(a, b, handle);
    }
    lemma_whole_output(false, output.stdout, false);
    lemma_whole_output(false, output.stdout, true);
    lemma_whole_output(true, output.stderr, false);
    lemma_whole_output(true, output.stderr, true);
    lemma_handle_one(c[0], true);
    lemma_handle_one(c[0], false);
    assert(c =~= seq![c[0]]);
    assert(handle_bytes(emitted, false) =~= shown(output.stdout));
    assert(handle_bytes(emitted, true) =~= shown(output.stderr) + vstd::utf8::encode_utf8(
        finished_text(task, status, nanos / 1_000_000) + "\n"@,
    ));
}

/// The interactive renderer is told of the end of a task alone. What a failed
/// task printed is kept, if it printed anything, behind what was kept before.
pub proof fn law_failed_output_is_kept_for_the_end(
    task: Seq<char>,
    fault: RunnerFault,
    output: CapturedView,
    mode: OutputMode,
)
    requires
        left_output(fault, output),
    ensures
        kept_failure(mode, task, fault) == (if mode == OutputMode::Tui && (output.stdout.len() > 0
            || output.stderr.len() > 0) {
            seq![TuiFailureView { task, stdout: output.stdout, stderr: output.stderr }]
        } else {
            Seq::empty()
        }),
{
}

/// At the end every kept failure is shown on the standard error, both of its
/// streams, in the order in which the tasks failed.
pub proof fn law_every_kept_failure_is_shown(
    before: Seq<TuiFailureView>,
    failure: TuiFailureView,
    after: Seq<TuiFailureView>,
)
    ensures
        ({
            let all = failures_text(before + seq![failure] + after);
            let heading = vstd::utf8::encode_utf8("\n"@ + failure.task + " captured output:"@ + "\n"@);
            let out = if failure.stdout.len() == 0 {
                Seq::empty()
            } else {
                vstd::utf8::encode_utf8("stdout:"@ + "\n"@) + line_terminated(failure.stdout)
            };
            let err = if failure.stderr.len() == 0 {
                Seq::empty()
            } else {
                vstd::utf8::encode_utf8("stderr:"@ + "\n"@) + line_terminated(failure.stderr)
            };
            &&& handle_bytes(all, true) == handle_bytes(failures_text(before), true) + (heading + out
                + err) + handle_bytes(failures_text(after), true)
            &&& handle_bytes(all, false) == handle_bytes(failures_text(before), false)
                + handle_bytes(failures_text(after), false)
        }),
{
    let one = failure_text(failure);
    lemma_failures_add(before + seq![failure], after);
    assert((before + seq![failure]).drop_last() =~= before);
    let front = failures_text(before);
    let back = failures_text(after);
    assert(failures_text(before + seq![failure] + after) == front + one + back);
    let heading = status_line("\n"@ + failure.task + " captured output:"@);
    let out = failure_stream("stdout:"@, failure.stdout);
    let err = failure_stream("stderr:"@, failure.stderr);
    assert forall|handle: bool| #[trigger] handle_bytes(front + one + back, handle)
        == handle_bytes(front, handle) + (handle_bytes(heading, handle) + handle_bytes(out, handle)
        + handle_bytes(err, handle)) + handle_bytes(back, handle) by {
        lemma_handle_add(front + one, back, handle);
        lemma_handle_add(front, one, handle);
        lemma_handle_add(heading + out, err, handle);
        lemma_handle_add(heading, out, handle);
    }
    lemma_handle_one(heading[0], true);
    lemma_handle_one(heading[0], false);
    assert(heading =~= seq![heading[0]]);
    lemma_failure_stream("stdout:"@, failure.stdout);
    lemma_failure_stream("stderr:"@, failure.stderr);
    assert(handle_bytes(front + one + back, false) =~= handle_bytes(front, false) + handle_bytes(
        back,
        false,
    ));
}

proof fn lemma_failure_stream(name: Seq<char>, bytes: Seq<u8>)
    ensures
        handle_bytes(failure_stream(name, bytes), false) == Seq::<u8>::empty(),
        handle_bytes(failure_stream(name, bytes), true) == (if bytes.len() == 0 {
            Seq::empty()
        } else {
            vstd::utf8::encode_utf8(name + "\n"@) + line_terminated(bytes)
        }),
{
    if bytes.len() > 0 {
        let heading = status_line(name);
        let rest = whole_output(true, bytes);
        lemma_handle_add(heading, rest, true);
        lemma_handle_add(heading, rest, false);
        lemma_handle_one(heading[0], true);
        lemma_handle_one(heading[0], false);
        assert(heading =~= seq![heading[0]]);
        lemma_whole_output(true, bytes, true);
        lemma_whole_output(true, bytes, false);
        assert(handle_bytes(failure_stream(name, bytes), false) =~= Seq::<u8>::empty());
    }
}

proof fn lemma_failures_add(a: Seq<TuiFailureView>, b: Seq<TuiFailureView>)
    ensures
        failures_text(a + b) == failures_text(a) + failures_text(b),
    decreases b.len(),
{
    if b.len() == 0 {
        assert(a + b =~= a);
        assert(failures_text(a) + failures_text(b) =~= failures_text(a));
    } else {
        lemma_failures_add(a, b.drop_last());
        assert((a + b).drop_last() =~= a + b.drop_last());
        assert(failures_text(a + b) =~= failures_text(a) + failures_text(b));
    }
}

/// Bytes behind the name of their task, line by line, the last line ended where
/// it was not.
pub open spec fn streamed(task: Seq<char>, bytes: Seq<u8>) -> Seq<u8> {
    framed_lines(task, bytes) + (if unterminated(bytes).len() > 0 {
        prefixed(task, unterminated(bytes)) + seq![10u8]
    } else {
        Seq::empty()
    })
}

proof fn lemma_live_bytes(stream: TaskStream, bytes: Seq<u8>, to_stderr: bool)
    ensures
        handle_bytes(live_output(stream, bytes), to_stderr) == if (stream == TaskStream::Stderr)
            == to_stderr {
            bytes
        } else {
            Seq::empty()
        },
{
    let written = live_output(stream, bytes);
    reveal_with_fuel(handle_bytes, 2);
    if bytes.len() > 0 {
        assert(written.drop_last() =~= Seq::empty());
        assert(Seq::<u8>::empty() + bytes =~= bytes);
    } else {
        assert(bytes =~= Seq::empty());
    }
}

proof fn lemma_flushed_bytes(partials: Partials, task: Seq<char>, stream: TaskStream)
    ensures
        handle_bytes(flushed_lines(flushed(partials, task)), stream == TaskStream::Stderr) == (
        if held(partials, task, stream).len() > 0 {
            prefixed(task, held(partials, task, stream)) + seq![10u8]
        } else {
            Seq::empty()
        }),
{
    let to_stderr = stream == TaskStream::Stderr;
    let lines = flushed(partials, task);
    law_held_lines_are_written_at_the_end(partials, task);
    reveal_with_fuel(flushed_lines, 3);
    if lines.len() > 0 {
        let last = lines.last();
        lemma_live_bytes(last.0, last.1, to_stderr);
        lemma_handle_add(
            flushed_lines(lines.drop_last()),
            live_output(last.0, last.1),
            to_stderr,
        );
        let front = lines.drop_last();
        if front.len() > 0 {
            let first = front.last();
            assert(first == lines[0]);
            lemma_live_bytes(first.0, first.1, to_stderr);
            lemma_handle_add(
                flushed_lines(front.drop_last()),
                live_output(first.0, first.1),
                to_stderr,
            );
            assert(front.drop_last() =~= Seq::empty());
            assert(flushed_lines(front.drop_last()) =~= Seq::empty());
        } else {
            assert(flushed_lines(front) =~= Seq::empty());
        }
    }
    assert(handle_bytes(flushed_lines(lines), to_stderr) =~= (if held(
        partials,
        task,
        stream,
    ).len() > 0 {
        prefixed(task, held(partials, task, stream)) + seq![10u8]
    } else {
        Seq::empty()
    }));
}

/// Where output is streamed, it does not matter where a task's output is cut
/// into events: the same bytes go to the same handle, and the same is held back.
pub proof fn law_live_output_does_not_depend_on_its_chunks(
    sink: SinkView,
    task: Seq<char>,
    stream: TaskStream,
    a: Seq<u8>,
    b: Seq<u8>,
    to_stderr: bool,
)
    requires
        sink.mode == OutputMode::Stream,
        !held(sink.partials, task, stream).contains(10),
    ensures
        ({
            let (first, one) = rendered_event(sink, output_event(task, stream, a));
            let (second, two) = rendered_event(first, output_event(task, stream, b));
            let (whole, all) = rendered_event(sink, output_event(task, stream, a + b));
            &&& second == whole
            &&& handle_bytes(one + two, to_stderr) == handle_bytes(all, to_stderr)
        }),
{
    let (first, one) = rendered_event(sink, output_event(task, stream, a));
    let (second, two) = rendered_event(first, output_event(task, stream, b));
    let (whole, all) = rendered_event(sink, output_event(task, stream, a + b));
    let before = held(sink.partials, task, stream);
    law_a_chunk_continues_what_is_held(sink.partials, task, stream, a);
    law_nothing_complete_is_held_back(before + a);
    law_a_chunk_continues_what_is_held(first.partials, task, stream, b);
    law_a_chunk_continues_what_is_held(sink.partials, task, stream, a + b);
    law_chunks_do_not_matter(task, before + a, b);
    assert(before + a + b =~= before + (a + b));
    lemma_handle_add(one, two, to_stderr);
    lemma_live_bytes(stream, completed_by(sink.partials, task, stream, a), to_stderr);
    lemma_live_bytes(stream, completed_by(first.partials, task, stream, b), to_stderr);
    lemma_live_bytes(stream, completed_by(sink.partials, task, stream, a + b), to_stderr);
    if a.len() == 0 {
        assert(a + b =~= b);
    } else if b.len() == 0 {
        assert(a + b =~= a);
    }
    assert(second.partials =~= whole.partials);
    assert(handle_bytes(one + two, to_stderr) =~= handle_bytes(all, to_stderr));
}

/// Where output is streamed, what a task printed on a stream has all been
/// written, line by line behind its name and on the handle of that stream, once
/// the task has ended; behind it the standard error has one line on the end.
pub proof fn law_streamed_output_is_written_out_at_the_end(
    sink: SinkView,
    task: Seq<char>,
    stream: TaskStream,
    bytes: Seq<u8>,
    status: TaskStatus,
    elapsed_ms: u128,
)
    requires
        sink.mode == OutputMode::Stream,
        held(sink.partials, task, stream).len() == 0,
    ensures
        ({
            let (during, one) = rendered_event(sink, output_event(task, stream, bytes));
            let (after, two) = rendered_event(
                during,
                EventView::TaskFinished {
                    schema: EXECUTION_EVENT_SCHEMA,
                    task,
                    status,
                    elapsed_ms,
                },
            );
            let line = vstd::utf8::encode_utf8(
                "\u{2514}\u{2500} "@ + finished_text(task, status, elapsed_ms) + "\n"@,
            );
            &&& held(after.partials, task, TaskStream::Stdout).len() == 0
            &&& held(after.partials, task, TaskStream::Stderr).len() == 0
            &&& handle_bytes(one + two, stream == TaskStream::Stderr) == streamed(task, bytes) + (
            if stream == TaskStream::Stderr {
                line
            } else {
                Seq::empty()
            })
        }),
{
    let to_stderr = stream == TaskStream::Stderr;
    let end = EventView::TaskFinished {
        schema: EXECUTION_EVENT_SCHEMA,
        task,
        status,
        elapsed_ms,
    };
    let (during, one) = rendered_event(sink, output_event(task, stream, bytes));
    let (after, two) = rendered_event(during, end);
    let said = status_line("\u{2514}\u{2500} "@ + finished_text(task, status, elapsed_ms));
    let before = held(sink.partials, task, stream);
    assert(before + bytes =~= bytes);
    law_a_chunk_continues_what_is_held(sink.partials, task, stream, bytes);
    lemma_live_bytes(stream, completed_by(sink.partials, task, stream, bytes), to_stderr);
    lemma_flushed_bytes(during.partials, task, stream);
    lemma_handle_add(flushed_lines(flushed(during.partials, task)), said, to_stderr);
    lemma_handle_add(one, two, to_stderr);
    reveal_with_fuel(handle_bytes, 2);
    assert(said.drop_last() =~= Seq::empty());
    let line = said[0]->Stderr_0;
    assert(handle_bytes(said, to_stderr) =~= (if to_stderr {
        line
    } else {
        Seq::empty()
    }));
    assert(handle_bytes(one + two, to_stderr) =~= streamed(task, bytes) + (if to_stderr {
        line
    } else {
        Seq::empty()
    }));
}

/// Whether an emission is one line of text on the standard error.
pub open spec fn says_line(emitted: Seq<EmissionView>, text: Seq<char>) -> bool {
    emitted == seq![EmissionView::Stderr(vstd::utf8::encode_utf8(text + "\n"@))]
}

/// On a terminal and in a stream a start is told by one line, a first attempt by
/// none, and any further attempt by one line with its number and how many there
/// may be.
pub proof fn law_starts_and_retries_are_told(
    sink: SinkView,
    schema: u32,
    task: Seq<char>,
    attempt: u32,
    max_attempts: u32,
)
    requires
        sink.mode == OutputMode::Terminal || sink.mode == OutputMode::Stream,
        held(sink.partials, task, TaskStream::Stdout).len() == 0,
        held(sink.partials, task, TaskStream::Stderr).len() == 0,
    ensures
        says_line(
            rendered_event(sink, EventView::TaskStarted { schema, task }).1,
            "\u{25b6} "@ + task,
        ),
        ({
            let emitted = rendered_event(
                sink,
                EventView::TaskAttemptStarted { schema, task, attempt, max_attempts },
            ).1;
            if attempt > 1 {
                says_line(
                    emitted,
                    "\u{21bb} "@ + task + ": retry "@ + decimal(attempt as nat) + "/"@ + decimal(
                        max_attempts as nat,
                    ),
                )
            } else {
                attempt == 1 ==> emitted.len() == 0
            }
        }),
{
    law_held_lines_are_written_at_the_end(sink.partials, task);
    let none = flushed_lines(flushed(sink.partials, task));
    assert(none =~= Seq::empty());
    let said = status_line(retry_text(task, attempt, max_attempts));
    assert(none + said =~= said);
}

/// What was cut off by a retry is not lost: where output is streamed, the line
/// that a failed attempt had begun is written before the next one starts.
pub proof fn law_a_retry_keeps_the_line_that_was_begun(
    sink: SinkView,
    schema: u32,
    task: Seq<char>,
    stream: TaskStream,
    attempt: u32,
    max_attempts: u32,
)
    requires
        sink.mode == OutputMode::Stream,
        attempt > 1,
        held(sink.partials, task, stream).len() > 0,
    ensures
        ({
            let (after, emitted) = rendered_event(
                sink,
                EventView::TaskAttemptStarted { schema, task, attempt, max_attempts },
            );
            &&& held(after.partials, task, stream).len() == 0
            &&& (prefixed(task, held(sink.partials, task, stream)) + seq![10u8]).is_prefix_of(
                handle_bytes(emitted, stream == TaskStream::Stderr),
            )
        }),
{
    let to_stderr = stream == TaskStream::Stderr;
    let said = status_line(retry_text(task, attempt, max_attempts));
    lemma_flushed_bytes(sink.partials, task, stream);
    lemma_handle_add(flushed_lines(flushed(sink.partials, task)), said, to_stderr);
    let line = prefixed(task, held(sink.partials, task, stream)) + seq![10u8];
    let emitted = flushed_lines(flushed(sink.partials, task)) + said;
    assert(line =~= handle_bytes(emitted, to_stderr).subrange(0, line.len() as int));
}

/// Where output is streamed, a task that ran has been shown while it ran: its
/// end adds nothing to the standard output but a line that was begun. One that
/// comes from the cache is shown whole at its end.
pub proof fn law_a_stream_shows_what_was_not_seen_yet(
    sink: SinkView,
    task: Seq<char>,
    result: TaskResultView,
)
    requires
        sink.mode == OutputMode::Stream,
        held(sink.partials, task, TaskStream::Stdout).len() == 0,
        held(sink.partials, task, TaskStream::Stderr).len() == 0,
    ensures
        ({
            let emitted = rendered_items(sink, success_items(sink.mode, task, result)).1;
            let line = vstd::utf8::encode_utf8(
                "\u{2514}\u{2500} "@ + finished_text(
                    task,
                    if result.cached {
                        TaskStatus::Cached
                    } else {
                        TaskStatus::Completed
                    },
                    result.elapsed.nanos / 1_000_000,
                ) + "\n"@,
            );
            if result.cached {
                &&& handle_bytes(emitted, false) == streamed(task, result.output.stdout)
                &&& handle_bytes(emitted, true) == streamed(task, result.output.stderr) + line
            } else {
                &&& handle_bytes(emitted, false).len() == 0
                &&& handle_bytes(emitted, true) == line
            }
        }),
{
    let status = if result.cached {
        TaskStatus::Cached
    } else {
        TaskStatus::Completed
    };
    let elapsed_ms = result.elapsed.nanos / 1_000_000;
    let end = finished_event(task, status, result.elapsed.nanos);
    let items = success_items(sink.mode, task, result);
    let front = items.drop_last();
    let said = status_line("\u{2514}\u{2500} "@ + finished_text(task, status, elapsed_ms));
    let line = said[0]->Stderr_0;
    let (before, one) = rendered_items(sink, front);
    assert(items.last() == end);
    let two = rendered_event(before, end->Event_0).1;
    let flush = flushed_lines(flushed(before.partials, task));
    assert(rendered_items(sink, items).1 == one + two);
    lemma_flushed_bytes(before.partials, task, TaskStream::Stdout);
    lemma_flushed_bytes(before.partials, task, TaskStream::Stderr);
    if result.cached {
        assert(front =~= output_items(task, result.output));
        lemma_streamed_items(sink, task, result.output);
    } else {
        assert(front =~= Seq::empty());
        assert(before == sink);
        assert(one =~= Seq::empty());
    }
    assert forall|to_stderr: bool| #[trigger] handle_bytes(one + two, to_stderr) == handle_bytes(
        one,
        to_stderr,
    ) + (handle_bytes(flush, to_stderr) + if to_stderr {
        line
    } else {
        Seq::empty()
    }) by {
        lemma_handle_add(one, two, to_stderr);
        lemma_handle_add(flush, said, to_stderr);
        lemma_handle_one(said[0], to_stderr);
        assert(said =~= seq![said[0]]);
    }
    assert(handle_bytes(one + two, false) =~= if result.cached {
        streamed(task, result.output.stdout)
    } else {
        Seq::empty()
    });
    assert(handle_bytes(one + two, true) =~= if result.cached {
        streamed(task, result.output.stderr) + line
    } else {
        line
    });
}

proof fn lemma_streamed_items(sink: SinkView, task: Seq<char>, output: CapturedView)
    requires
        sink.mode == OutputMode::Stream,
        held(sink.partials, task, TaskStream::Stdout).len() == 0,
        held(sink.partials, task, TaskStream::Stderr).len() == 0,
    ensures
        ({
            let (after, emitted) = rendered_items(sink, output_items(task, output));
            &&& after.mode == OutputMode::Stream
            &&& handle_bytes(emitted, false) == framed_lines(task, output.stdout)
            &&& handle_bytes(emitted, true) == framed_lines(task, output.stderr)
            &&& held(after.partials, task, TaskStream::Stdout) == unterminated(output.stdout)
            &&& held(after.partials, task, TaskStream::Stderr) == unterminated(output.stderr)
        }),
{
    let first = stream_item(task, TaskStream::Stdout, output.stdout);
    let items = output_items(task, output);
    let (middle, one) = rendered_items(sink, first);
    reveal_with_fuel(rendered_items, 3);
    let out = held(sink.partials, task, TaskStream::Stdout);
    let err = held(sink.partials, task, TaskStream::Stderr);
    assert(out + output.stdout =~= output.stdout);
    assert(err + output.stderr =~= output.stderr);
    assert(out =~= Seq::empty());
    assert(err =~= Seq::empty());
    if output.stdout.len() > 0 {
        assert(first.drop_last() =~= Seq::empty());
        let written = live_output(TaskStream::Stdout, framed_lines(task, output.stdout));
        assert(one =~= written);
        lemma_live_bytes(TaskStream::Stdout, framed_lines(task, output.stdout), false);
        lemma_live_bytes(TaskStream::Stdout, framed_lines(task, output.stdout), true);
    } else {
        assert(output.stdout =~= Seq::empty());
        assert(first =~= Seq::empty());
        assert(one =~= Seq::empty());
        assert(middle == sink);
        assert(framed_lines(task, output.stdout) =~= Seq::empty());
    }
    assert(handle_bytes(one, false) == framed_lines(task, output.stdout));
    assert(handle_bytes(one, true) == Seq::<u8>::empty());
    assert(held(middle.partials, task, TaskStream::Stdout) == unterminated(output.stdout));
    assert(held(middle.partials, task, TaskStream::Stderr) == err);
    if output.stderr.len() > 0 {
        assert(items.drop_last() =~= first);
        let written = live_output(TaskStream::Stderr, framed_lines(task, output.stderr));
        assert(rendered_items(sink, items).1 == one + written);
        lemma_handle_add(one, written, false);
        lemma_handle_add(one, written, true);
        lemma_live_bytes(TaskStream::Stderr, framed_lines(task, output.stderr), false);
        lemma_live_bytes(TaskStream::Stderr, framed_lines(task, output.stderr), true);
        let emitted = rendered_items(sink, items).1;
        assert(handle_bytes(emitted, false) =~= framed_lines(task, output.stdout));
        assert(handle_bytes(emitted, true) =~= framed_lines(task, output.stderr));
    } else {
        assert(output.stderr =~= Seq::empty());
        assert(items =~= first);
        assert(framed_lines(task, output.stderr) =~= Seq::empty());
    }
}

} // verus!
