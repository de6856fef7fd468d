//! Task output presentation.
//!
//! Each output mode renders [`ExecutionEvent`] values in its own way, so the
//! scheduler never needs to know about terminal prefixes, JSON streams, or
//! interactive panes. What is to be written where comes back as a list; the
//! caller writes it in order and stops at the first failure.

use vstd::prelude::*;
use vstd::string::StringExecFns;
use vstd::utf8::encode_utf8;

use crate::cache::hash::copy_bytes;
use crate::events::{
    status_label, EventView, ExecutionEvent, TaskStatus, TaskStream, EXECUTION_EVENT_SCHEMA,
};
use crate::project::error::TaskNode;
use crate::runner::error::{
    fault_elapsed, fault_output, fault_status, RunnerError, RunnerFault, TaskResult, TaskResultView,
};
use crate::runner::stream::{CapturedOutput, CapturedView};
use crate::scheduler::summary::ExecutionSummary;
use crate::stream_output::{completed_by, flushed, flushed_views, pushed, Partials, StreamFormatter};
use crate::text::{decimal, number};
use crate::time::Duration;

verus! {

/// Selects the output contract for a pipeline run.
#[derive(Debug, Clone, Copy, PartialEq, Eq, Structural)]
pub enum OutputMode {
    /// Human-readable buffered text output with status on stderr.
    Terminal,
    /// Newline-delimited JSON execution events on stdout.
    Json,
    /// Stream task output as it arrives with task prefixes.
    Stream,
    /// Interactive task list and per-task output panes.
    Tui,
}

/// Something to write.
#[derive(Debug, Clone, PartialEq, Eq)]
pub enum Emission {
    /// Bytes for the standard output.
    Stdout(Vec<u8>),
    /// Bytes for the standard error.
    Stderr(Vec<u8>),
    /// An event for the standard output, as a JSON object on a line.
    Json { run_id: u64, sequence: u64, event: ExecutionEvent },
    /// An event for the interactive renderer.
    Tui(ExecutionEvent),
    /// The interactive renderer is to end.
    FinishTui,
}

/// What an `Emission` says.
pub enum EmissionView {
    Stdout(Seq<u8>),
    Stderr(Seq<u8>),
    Json { run_id: u64, sequence: u64, event: EventView },
    Tui(EventView),
    FinishTui,
}

impl View for Emission {
    type V = EmissionView;

    open spec fn view(&self) -> EmissionView {
        match *self {
            Emission::Stdout(bytes) => EmissionView::Stdout(bytes@),
            Emission::Stderr(bytes) => EmissionView::Stderr(bytes@),
            Emission::Json { run_id, sequence, event } => EmissionView::Json {
                run_id,
                sequence,
                event: event@,
            },
            Emission::Tui(event) => EmissionView::Tui(event@),
            Emission::FinishTui => EmissionView::FinishTui,
        }
    }
}

/// What a list of emissions says.
pub open spec fn emission_views(emissions: Seq<Emission>) -> Seq<EmissionView> {
    emissions.map_values(|e: Emission| e@)
}

/// The output of a failed task, kept until the interactive renderer has ended.
#[derive(Debug, Clone, PartialEq, Eq)]
pub struct TuiFailure {
    pub task: String,
    pub stdout: Vec<u8>,
    pub stderr: Vec<u8>,
}

/// What a `TuiFailure` says.
pub struct TuiFailureView {
    pub task: Seq<char>,
    pub stdout: Seq<u8>,
    pub stderr: Seq<u8>,
}

impl View for TuiFailure {
    type V = TuiFailureView;

    open spec fn view(&self) -> TuiFailureView {
        TuiFailureView { task: self.task@, stdout: self.stdout@, stderr: self.stderr@ }
    }
}

/// What a list of failures says.
pub open spec fn tui_failure_views(failures: Seq<TuiFailure>) -> Seq<TuiFailureView> {
    failures.map_values(|f: TuiFailure| f@)
}

/// Something to present.
#[derive(Debug)]
pub enum Item {
    /// The output of a finished task.
    Bytes { to_stderr: bool, bytes: Vec<u8> },
    Event(ExecutionEvent),
}

/// What an `Item` says.
pub enum ItemView {
    Bytes { to_stderr: bool, bytes: Seq<u8> },
    Event(EventView),
}

impl View for Item {
    type V = ItemView;

    open spec fn view(&self) -> ItemView {
        match *self {
            Item::Bytes { to_stderr, bytes } => ItemView::Bytes { to_stderr, bytes: bytes@ },
            Item::Event(event) => ItemView::Event(event@),
        }
    }
}

/// What a list of items says.
pub open spec fn item_views(items: Seq<Item>) -> Seq<ItemView> {
    items.map_values(|i: Item| i@)
}

/// Owns task presentation, so that worker threads never decide what is written.
#[derive(Debug)]
pub struct OutputSink {
    pub mode: OutputMode,
    pub run_id: u64,
    pub sequence: u64,
    pub stream: StreamFormatter,
    pub tui_failures: Vec<TuiFailure>,
}

/// What an `OutputSink` holds.
pub struct SinkView {
    pub mode: OutputMode,
    pub run_id: u64,
    pub sequence: u64,
    pub partials: Partials,
    pub failures: Seq<TuiFailureView>,
}

impl View for OutputSink {
    type V = SinkView;

    open spec fn view(&self) -> SinkView {
        SinkView {
            mode: self.mode,
            run_id: self.run_id,
            sequence: self.sequence,
            partials: self.stream@,
            failures: tui_failure_views(self.tui_failures@),
        }
    }
}

// ---------------------------------------------------------------------------
// What is written
// ---------------------------------------------------------------------------
/// `bytes` with a newline behind them, where there is none.
pub open spec fn line_terminated(bytes: Seq<u8>) -> Seq<u8> {
    if bytes.len() > 0 && bytes.last() == 10 {
        bytes
    } else {
        bytes.push(10)
    }
}

/// Bytes for one of the two handles.
pub open spec fn for_handle(to_stderr: bool, bytes: Seq<u8>) -> EmissionView {
    if to_stderr {
        EmissionView::Stderr(bytes)
    } else {
        EmissionView::Stdout(bytes)
    }
}

/// The output of a finished task.
pub open spec fn whole_output(to_stderr: bool, bytes: Seq<u8>) -> Seq<EmissionView> {
    if bytes.len() == 0 {
        Seq::empty()
    } else {
        seq![for_handle(to_stderr, line_terminated(bytes))]
    }
}

/// The output of a task that still runs.
pub open spec fn live_output(stream: TaskStream, bytes: Seq<u8>) -> Seq<EmissionView> {
    if bytes.len() == 0 {
        Seq::empty()
    } else {
        seq![for_handle(stream == TaskStream::Stderr, bytes)]
    }
}

/// A line of text for the standard error.
pub open spec fn status_line(text: Seq<char>) -> Seq<EmissionView> {
    seq![EmissionView::Stderr(encode_utf8(text + "\n"@))]
}

/// How a retry is announced.
pub open spec fn retry_text(task: Seq<char>, attempt: u32, max_attempts: u32) -> Seq<char> {
    "\u{21bb} "@ + task + ": retry "@ + decimal(attempt as nat) + "/"@ + decimal(
        max_attempts as nat,
    )
}

/// How the end of a task is announced.
pub open spec fn finished_text(task: Seq<char>, status: TaskStatus, elapsed_ms: u128) -> Seq<
    char,
> {
    task + ": "@ + status_label(status) + " in "@ + decimal(elapsed_ms as nat) + "ms"@
}

/// An event on a terminal.
pub open spec fn on_terminal(event: EventView) -> Seq<EmissionView> {
    match event {
        EventView::TaskStarted { task, .. } => status_line("\u{25b6} "@ + task),
        EventView::TaskAttemptStarted { task, attempt, max_attempts, .. } => if attempt == 1 {
            Seq::empty()
        } else {
            status_line(retry_text(task, attempt, max_attempts))
        },
        EventView::TaskFinished { task, status, elapsed_ms, .. } => status_line(
            finished_text(task, status, elapsed_ms),
        ),
        _ => Seq::empty(),
    }
}

/// The unterminated lines of a task.
pub open spec fn flushed_lines(lines: Seq<(TaskStream, Seq<u8>)>) -> Seq<EmissionView>
    decreases lines.len(),
{
    if lines.len() == 0 {
        Seq::empty()
    } else {
        flushed_lines(lines.drop_last()) + live_output(lines.last().0, lines.last().1)
    }
}

/// An event where output is streamed: the partial lines afterwards, and what
/// is written.
pub open spec fn on_stream(partials: Partials, event: EventView) -> (Partials, Seq<EmissionView>) {
    match event {
        EventView::TaskOutput { task, stream, bytes, .. } => (
            pushed(partials, task, stream, bytes),
            live_output(stream, completed_by(partials, task, stream, bytes)),
        ),
        EventView::TaskFinished { task, status, elapsed_ms, .. } => (
            partials.remove(task),
            flushed_lines(flushed(partials, task)) + status_line(
                "\u{2514}\u{2500} "@ + finished_text(task, status, elapsed_ms),
            ),
        ),
        EventView::TaskAttemptStarted { task, attempt, max_attempts, .. } => if attempt > 1 {
            (
                partials.remove(task),
                flushed_lines(flushed(partials, task)) + status_line(
                    retry_text(task, attempt, max_attempts),
                ),
            )
        } else {
            (partials, on_terminal(event))
        },
        _ => (partials, on_terminal(event)),
    }
}

/// The next number of a sequence, which starts again behind the last one.
pub open spec fn next_sequence(sequence: u64) -> u64 {
    if sequence == u64::MAX {
        0
    } else {
        (sequence + 1) as u64
    }
}

/// How an event is rendered.
pub open spec fn rendered_event(sink: SinkView, event: EventView) -> (SinkView, Seq<EmissionView>) {
    match sink.mode {
        OutputMode::Json => (
            SinkView { sequence: next_sequence(sink.sequence), ..sink },
            seq![
                EmissionView::Json { run_id: sink.run_id, sequence: sink.sequence, event },
            ],
        ),
        OutputMode::Terminal => (sink, on_terminal(event)),
        OutputMode::Stream => {
            let (partials, written) = on_stream(sink.partials, event);
            (SinkView { partials, ..sink }, written)
        },
        OutputMode::Tui => (sink, seq![EmissionView::Tui(event)]),
    }
}

/// How an item is rendered.
pub open spec fn rendered_item(sink: SinkView, item: ItemView) -> (SinkView, Seq<EmissionView>) {
    match item {
        ItemView::Bytes { to_stderr, bytes } => (sink, whole_output(to_stderr, bytes)),
        ItemView::Event(event) => rendered_event(sink, event),
    }
}

/// How items are rendered, one behind the other.
pub open spec fn rendered_items(sink: SinkView, items: Seq<ItemView>) -> (
    SinkView,
    Seq<EmissionView>,
)
    decreases items.len(),
{
    if items.len() == 0 {
        (sink, Seq::empty())
    } else {
        let (between, written) = rendered_items(sink, items.drop_last());
        let (after, last) = rendered_item(between, items.last());
        (after, written + last)
    }
}

/// An event for a chunk of output.
pub open spec fn output_event(task: Seq<char>, stream: TaskStream, bytes: Seq<u8>) -> EventView {
    EventView::TaskOutput { schema: EXECUTION_EVENT_SCHEMA, task, stream, bytes }
}

/// An event for what a stream of a finished task holds, where it holds
/// anything.
pub open spec fn stream_item(task: Seq<char>, stream: TaskStream, bytes: Seq<u8>) -> Seq<
    ItemView,
> {
    if bytes.len() == 0 {
        Seq::empty()
    } else {
        seq![ItemView::Event(output_event(task, stream, bytes))]
    }
}

/// Events for what a finished task printed.
pub open spec fn output_items(task: Seq<char>, output: CapturedView) -> Seq<ItemView> {
    stream_item(task, TaskStream::Stdout, output.stdout) + stream_item(
        task,
        TaskStream::Stderr,
        output.stderr,
    )
}

/// What a finished task printed, as it is.
pub open spec fn raw_items(output: CapturedView) -> Seq<ItemView> {
    seq![
        ItemView::Bytes { to_stderr: false, bytes: output.stdout },
        ItemView::Bytes { to_stderr: true, bytes: output.stderr },
    ]
}

/// The event for the end of a task.
pub open spec fn finished_event(task: Seq<char>, status: TaskStatus, nanos: u128) -> ItemView {
    ItemView::Event(
        EventView::TaskFinished {
            schema: EXECUTION_EVENT_SCHEMA,
            task,
            status,
            elapsed_ms: nanos / 1_000_000,
        },
    )
}

/// What is presented of a task that succeeded. Where output is streamed, only
/// what comes from the cache has not been seen yet.
pub open spec fn success_items(mode: OutputMode, task: Seq<char>, result: TaskResultView) -> Seq<
    ItemView,
> {
    let output = match mode {
        OutputMode::Json => output_items(task, result.output),
        OutputMode::Stream => if result.cached {
            output_items(task, result.output)
        } else {
            Seq::empty()
        },
        OutputMode::Tui => Seq::empty(),
        OutputMode::Terminal => raw_items(result.output),
    };
    output.push(
        finished_event(
            task,
            if result.cached {
                TaskStatus::Cached
            } else {
                TaskStatus::Completed
            },
            result.elapsed.nanos,
        ),
    )
}

/// What is presented of a task that failed.
pub open spec fn failure_items(mode: OutputMode, task: Seq<char>, fault: RunnerFault) -> Seq<
    ItemView,
> {
    let output = match fault_output(fault) {
        None => Seq::empty(),
        Some(output) => match mode {
            OutputMode::Json => output_items(task, output),
            OutputMode::Terminal => raw_items(output),
            _ => Seq::empty(),
        },
    };
    output.push(
        finished_event(
            task,
            fault_status(fault),
            match fault_elapsed(fault) {
                Some(elapsed) => elapsed.nanos,
                None => 0,
            },
        ),
    )
}

/// The output of a failed task that is shown once the interactive renderer has
/// ended.
pub open spec fn kept_failure(mode: OutputMode, task: Seq<char>, fault: RunnerFault) -> Seq<
    TuiFailureView,
> {
    match fault_output(fault) {
        Some(output) => if mode == OutputMode::Tui && (output.stdout.len() > 0
            || output.stderr.len() > 0) {
            seq![TuiFailureView { task, stdout: output.stdout, stderr: output.stderr }]
        } else {
            Seq::empty()
        },
        None => Seq::empty(),
    }
}

/// One stream of a failed task.
pub open spec fn failure_stream(name: Seq<char>, bytes: Seq<u8>) -> Seq<EmissionView> {
    if bytes.len() == 0 {
        Seq::empty()
    } else {
        status_line(name) + whole_output(true, bytes)
    }
}

/// The output of a failed task.
pub open spec fn failure_text(failure: TuiFailureView) -> Seq<EmissionView> {
    status_line("\n"@ + failure.task + " captured output:"@) + failure_stream(
        "stdout:"@,
        failure.stdout,
    ) + failure_stream("stderr:"@, failure.stderr)
}

/// The output of failed tasks.
pub open spec fn failures_text(failures: Seq<TuiFailureView>) -> Seq<EmissionView>
    decreases failures.len(),
{
    if failures.len() == 0 {
        Seq::empty()
    } else {
        failures_text(failures.drop_last()) + failure_text(failures.last())
    }
}

// ---------------------------------------------------------------------------
// Rendering
// ---------------------------------------------------------------------------
fn terminated(bytes: &Vec<u8>) -> (r: Vec<u8>)
    ensures
        r@ == line_terminated(bytes@),
{
    let mut out = copy_bytes(bytes);
    if bytes.len() == 0 || bytes[bytes.len() - 1] != 10 {
        out.push(10);
    }
    out
}

fn write_bytes(bytes: &Vec<u8>, to_stderr: bool) -> (r: Vec<Emission>)
    ensures
        emission_views(r@) == whole_output(to_stderr, bytes@),
{
    let mut out: Vec<Emission> = Vec::new();
    if bytes.len() > 0 {
        let line = terminated(bytes);
        if to_stderr {
            out.push(Emission::Stderr(line));
        } else {
            out.push(Emission::Stdout(line));
        }
    }
    assert(emission_views(out@) =~= whole_output(to_stderr, bytes@));
    out
}

fn write_stream_bytes(stream: TaskStream, bytes: Vec<u8>) -> (r: Vec<Emission>)
    ensures
        emission_views(r@) == live_output(stream, bytes@),
{
    let ghost view = bytes@;
    let mut out: Vec<Emission> = Vec::new();
    if bytes.len() > 0 {
        if stream == TaskStream::Stderr {
            out.push(Emission::Stderr(bytes));
        } else {
            out.push(Emission::Stdout(bytes));
        }
    }
    assert(emission_views(out@) =~= live_output(stream, view));
    out
}

fn write_status(text: String) -> (r: Vec<Emission>)
    ensures
        emission_views(r@) == status_line(text@),
{
    let ghost view = text@;
    let mut line = text;
    line.append("\n");
    let mut out: Vec<Emission> = Vec::new();
    out.push(Emission::Stderr(line.as_str().as_bytes_vec()));
    assert(emission_views(out@) =~= status_line(view));
    out
}

fn joined(first: Vec<Emission>, second: Vec<Emission>) -> (r: Vec<Emission>)
    ensures
        emission_views(r@) == emission_views(first@) + emission_views(second@),
{
    let ghost a = first@;
    let ghost b = second@;
    let mut out = first;
    let mut more = second;
    out.append(&mut more);
    assert(emission_views(out@) =~= emission_views(a) + emission_views(b));
    out
}

fn retry_line(task: &str, attempt: u32, max_attempts: u32) -> (r: String)
    ensures
        r@ == retry_text(task@, attempt, max_attempts),
{
    let mut text = "\u{21bb} ".to_owned();
    text.append(task);
    text.append(": retry ");
    text.append(number(attempt as u128).as_str());
    text.append("/");
    text.append(number(max_attempts as u128).as_str());
    text
}

fn finished_line(task: &str, status: TaskStatus, elapsed_ms: u128) -> (r: String)
    ensures
        r@ == finished_text(task@, status, elapsed_ms),
{
    let mut text = task.to_owned();
    text.append(": ");
    text.append(status.label());
    text.append(" in ");
    text.append(number(elapsed_ms).as_str());
    text.append("ms");
    text
}

/// An event on a terminal.
pub fn render_terminal(event: &ExecutionEvent) -> (r: Vec<Emission>)
    ensures
        emission_views(r@) == on_terminal(event@),
{
    match event {
        ExecutionEvent::TaskStarted { task, .. } => {
            let mut text = "\u{25b6} ".to_owned();
            text.append(task.as_str());
            write_status(text)
        },
        ExecutionEvent::TaskAttemptStarted { task, attempt, max_attempts, .. } => {
            if *attempt == 1 {
                let none: Vec<Emission> = Vec::new();
                assert(emission_views(none@) =~= Seq::empty());
                none
            } else {
                write_status(retry_line(task.as_str(), *attempt, *max_attempts))
            }
        },
        ExecutionEvent::TaskFinished { task, status, elapsed_ms, .. } => {
            write_status(finished_line(task.as_str(), *status, *elapsed_ms))
        },
        _ => {
            let none: Vec<Emission> = Vec::new();
            assert(emission_views(none@) =~= Seq::empty());
            none
        },
    }
}

impl OutputSink {
    /// The partial lines are kept in order.
    pub open spec fn wf(self) -> bool {
        self.stream.wf()
    }

    /// A sink that has presented nothing yet.
    pub fn new(mode: OutputMode, run_id: u64) -> (r: OutputSink)
        ensures
            r.wf(),
            r@ == (SinkView {
                mode,
                run_id,
                sequence: 0,
                partials: Map::empty(),
                failures: Seq::empty(),
            }),
    {
        let r = OutputSink {
            mode,
            run_id,
            sequence: 0,
            stream: StreamFormatter::new(),
            tui_failures: Vec::new(),
        };
        assert(r@.failures =~= Seq::empty());
        r
    }

    fn flush(&mut self, task: &str) -> (r: Vec<Emission>)
        requires
            old(self).wf(),
        ensures
            final(self).wf(),
            final(self)@ == (SinkView { partials: old(self)@.partials.remove(task@), ..old(self)@ }),
            emission_views(r@) == flushed_lines(flushed(old(self)@.partials, task@)),
    {
        let lines = self.stream.finish(task);
        let ghost all = flushed_views(lines@);
        let mut out: Vec<Emission> = Vec::new();
        let mut i: usize = 0;
        assert(emission_views(out@) =~= flushed_lines(all.take(0)));
        while i < lines.len()
            invariant
                i <= lines@.len(),
                all == flushed_views(lines@),
                emission_views(out@) == flushed_lines(all.take(i as int)),
            decreases lines.len() - i,
        {
            let ghost next = all.take(i as int + 1);
            assert(next.drop_last() =~= all.take(i as int));
            assert(next.last() == (lines[i as int].0, lines[i as int].1@));
            let stream: TaskStream = lines[i].0;
            out = joined(out, write_stream_bytes(stream, copy_bytes(&lines[i].1)));
            i += 1;
        }
        assert(all.take(i as int) =~= all);
        out
    }

    /// An event where output is streamed.
    fn render_stream(&mut self, event: &ExecutionEvent) -> (r: Vec<Emission>)
        requires
            old(self).wf(),
        ensures
            final(self).wf(),
            ({
                let (partials, written) = on_stream(old(self)@.partials, event@);
                &&& final(self)@ == (SinkView { partials, ..old(self)@ })
                &&& emission_views(r@) == written
            }),
    {
        match event {
            ExecutionEvent::TaskOutput { task, stream, bytes, .. } => {
                let framed = self.stream.push(task.as_str(), *stream, bytes);
                write_stream_bytes(*stream, framed)
            },
            ExecutionEvent::TaskFinished { task, status, elapsed_ms, .. } => {
                let first = self.flush(task.as_str());
                let mut text = "\u{2514}\u{2500} ".to_owned();
                text.append(finished_line(task.as_str(), *status, *elapsed_ms).as_str());
                joined(first, write_status(text))
            },
            ExecutionEvent::TaskAttemptStarted { task, attempt, max_attempts, .. } => {
                if *attempt > 1 {
                    let first = self.flush(task.as_str());
                    joined(first, write_status(retry_line(task.as_str(), *attempt, *max_attempts)))
                } else {
                    render_terminal(event)
                }
            },
            _ => render_terminal(event),
        }
    }

    /// How an event is rendered.
    pub fn render_event(&mut self, event: ExecutionEvent) -> (r: Vec<Emission>)
        requires
            old(self).wf(),
        ensures
            final(self).wf(),
            (final(self)@, emission_views(r@)) == rendered_event(old(self)@, event@),
    {
        let ghost view = event@;
        match self.mode {
            OutputMode::Json => {
                let sequence: u64 = self.sequence;
                self.sequence = if sequence == u64::MAX {
                    0
                } else {
                    sequence + 1
                };
                let mut out: Vec<Emission> = Vec::new();
                out.push(Emission::Json { run_id: self.run_id, sequence, event });
                assert(emission_views(out@) =~= rendered_event(old(self)@, view).1);
                out
            },
            OutputMode::Terminal => render_terminal(&event),
            OutputMode::Stream => self.render_stream(&event),
            OutputMode::Tui => {
                let mut out: Vec<Emission> = Vec::new();
                out.push(Emission::Tui(event));
                assert(emission_views(out@) =~= rendered_event(old(self)@, view).1);
                out
            },
        }
    }

    fn render_item(&mut self, item: Item) -> (r: Vec<Emission>)
        requires
            old(self).wf(),
        ensures
            final(self).wf(),
            (final(self)@, emission_views(r@)) == rendered_item(old(self)@, item@),
    {
        match item {
            Item::Bytes { to_stderr, bytes } => write_bytes(&bytes, to_stderr),
            Item::Event(event) => self.render_event(event),
        }
    }

    fn render_items(&mut self, items: Vec<Item>) -> (r: Vec<Emission>)
        requires
            old(self).wf(),
        ensures
            final(self).wf(),
            (final(self)@, emission_views(r@)) == rendered_items(old(self)@, item_views(items@)),
    {
        let ghost all = item_views(items@);
        let ghost start = self@;
        let ghost given = items@;
        let mut items = items;
        let mut out: Vec<Emission> = Vec::new();
        let ghost mut i: int = 0;
        assert(all.take(0) =~= Seq::empty());
        assert(emission_views(out@) =~= Seq::empty());
        assert(given.skip(0) =~= given);
        while items.len() > 0
            invariant
                self.wf(),
                0 <= i <= given.len(),
                items@ == given.skip(i),
                all == item_views(given),
                (self@, emission_views(out@)) == rendered_items(start, all.take(i)),
            decreases items.len(),
        {
            let ghost next = all.take(i + 1);
            assert(next.drop_last() =~= all.take(i));
            assert(next.last() == given[i]@);
            let item = items.remove(0);
            assert(item == given[i]);
            assert(items@ =~= given.skip(i + 1));
            let written = self.render_item(item);
            out = joined(out, written);
            proof {
                i = i + 1;
            }
        }
        assert(i == given.len());
        assert(all.take(i) =~= all);
        out
    }

    /// A task starts.
    pub fn present_start(&mut self, node: &TaskNode) -> (r: Vec<Emission>)
        requires
            old(self).wf(),
        ensures
            final(self).wf(),
            (final(self)@, emission_views(r@)) == rendered_event(
                old(self)@,
                EventView::TaskStarted { schema: EXECUTION_EVENT_SCHEMA, task: node.id@ },
            ),
    {
        self.render_event(ExecutionEvent::task_started(node))
    }

    /// A task succeeded.
    pub fn present_success(&mut self, node: &TaskNode, result: &TaskResult) -> (r: Vec<Emission>)
        requires
            old(self).wf(),
        ensures
            final(self).wf(),
            (final(self)@, emission_views(r@)) == rendered_items(
                old(self)@,
                success_items(old(self).mode, node.id@, result@),
            ),
    {
        let mut items: Vec<Item> = match self.mode {
            OutputMode::Json => captured_items(node, &result.output),
            OutputMode::Stream => {
                if result.cached {
                    captured_items(node, &result.output)
                } else {
                    Vec::new()
                }
            },
            OutputMode::Tui => Vec::new(),
            OutputMode::Terminal => plain_items(&result.output),
        };
        let ghost before = item_views(items@);
        let status = if result.cached {
            TaskStatus::Cached
        } else {
            TaskStatus::Completed
        };
        items.push(Item::Event(ExecutionEvent::task_finished(node, status, result.elapsed)));
        assert(item_views(items@) =~= success_items(self.mode, node.id@, result@));
        self.render_items(items)
    }

    /// A task was kept from running.
    pub fn present_blocked(&mut self, node: &TaskNode) -> (r: Vec<Emission>)
        requires
            old(self).wf(),
        ensures
            final(self).wf(),
            (final(self)@, emission_views(r@)) == rendered_item(
                old(self)@,
                finished_event(node.id@, TaskStatus::Blocked, 0),
            ),
    {
        self.render_event(
            ExecutionEvent::task_finished(node, TaskStatus::Blocked, Duration::zero()),
        )
    }

    /// A task failed.
    pub fn present_failure(&mut self, node: &TaskNode, error: &RunnerError) -> (r: Vec<Emission>)
        requires
            old(self).wf(),
        ensures
            final(self).wf(),
            (final(self)@, emission_views(r@)) == rendered_items(
                SinkView {
                    failures: old(self)@.failures + kept_failure(
                        old(self).mode,
                        node.id@,
                        error@,
                    ),
                    ..old(self)@
                },
                failure_items(old(self).mode, node.id@, error@),
            ),
    {
        let mut items: Vec<Item> = Vec::new();
        let ghost failures = self@.failures;
        if let Some(output) = error.output() {
            match self.mode {
                OutputMode::Json => {
                    items = captured_items(node, output);
                },
                OutputMode::Terminal => {
                    items = plain_items(output);
                },
                OutputMode::Tui => {
                    if output.stdout.len() > 0 || output.stderr.len() > 0 {
                        let failure = TuiFailure {
                            task: node.id.clone(),
                            stdout: copy_bytes(&output.stdout),
                            stderr: copy_bytes(&output.stderr),
                        };
                        self.tui_failures.push(failure);
                    }
                },
                OutputMode::Stream => {},
            }
        }
        assert(self@.failures =~= failures + kept_failure(self.mode, node.id@, error@));
        let elapsed = match error.elapsed() {
            Some(elapsed) => elapsed,
            None => Duration::zero(),
        };
        items.push(Item::Event(ExecutionEvent::task_finished(node, error.status(), elapsed)));
        assert(item_views(items@) =~= failure_items(self.mode, node.id@, error@));
        self.render_items(items)
    }

    /// Whether output is presented while tasks still run.
    pub fn is_live(&self) -> (r: bool)
        ensures
            r == (self.mode == OutputMode::Stream || self.mode == OutputMode::Tui),
    {
        self.mode == OutputMode::Stream || self.mode == OutputMode::Tui
    }

    /// An attempt starts.
    pub fn present_attempt(&mut self, node: &TaskNode, attempt: u32, max_attempts: u32) -> (r: Vec<
        Emission,
    >)
        requires
            old(self).wf(),
        ensures
            final(self).wf(),
            (final(self)@, emission_views(r@)) == rendered_event(
                old(self)@,
                EventView::TaskAttemptStarted {
                    schema: EXECUTION_EVENT_SCHEMA,
                    task: node.id@,
                    attempt,
                    max_attempts,
                },
            ),
    {
        self.render_event(ExecutionEvent::task_attempt_started(node, attempt, max_attempts))
    }

    /// A running task printed something.
    pub fn present_live_output(&mut self, node: &TaskNode, stream: TaskStream, bytes: Vec<u8>) -> (r:
        Vec<Emission>)
        requires
            old(self).wf(),
        ensures
            final(self).wf(),
            (final(self)@, emission_views(r@)) == rendered_event(
                old(self)@,
                output_event(node.id@, stream, bytes@),
            ),
    {
        self.render_event(ExecutionEvent::task_output(node, stream, bytes))
    }

    /// A run starts.
    pub fn present_run_start(&mut self, project: &str, task_count: usize) -> (r: Vec<Emission>)
        requires
            old(self).wf(),
        ensures
            final(self).wf(),
            (final(self)@, emission_views(r@)) == rendered_event(
                old(self)@,
                EventView::RunStarted {
                    schema: EXECUTION_EVENT_SCHEMA,
                    project: project@,
                    task_count,
                },
            ),
    {
        self.render_event(ExecutionEvent::run_started(project.to_owned(), task_count))
    }

    /// A run has ended. Only JSON says so here: the other modes leave the
    /// summary to whoever ran the command.
    pub fn present_run_finished(&mut self, summary: &ExecutionSummary) -> (r: Vec<Emission>)
        requires
            old(self).wf(),
        ensures
            final(self).wf(),
            match old(self).mode {
                OutputMode::Json => (final(self)@, emission_views(r@)) == rendered_event(
                    old(self)@,
                    EventView::RunFinished {
                        schema: EXECUTION_EVENT_SCHEMA,
                        completed: summary.completed,
                        cached: summary.cached,
                        failed: summary.failed,
                        cancelled: summary.cancelled,
                        blocked: summary.blocked,
                    },
                ),
                OutputMode::Tui => final(self)@ == (SinkView {
                    failures: Seq::empty(),
                    ..old(self)@
                }) && emission_views(r@) == seq![EmissionView::FinishTui] + failures_text(
                    old(self)@.failures,
                ),
                _ => final(self)@ == old(self)@ && r@.len() == 0,
            },
    {
        match self.mode {
            OutputMode::Json => self.render_event(
                ExecutionEvent::run_finished(
                    summary.completed,
                    summary.cached,
                    summary.failed,
                    summary.cancelled,
                    summary.blocked,
                ),
            ),
            OutputMode::Tui => {
                let mut out: Vec<Emission> = Vec::new();
                out.push(Emission::FinishTui);
                assert(emission_views(out@) =~= seq![EmissionView::FinishTui]);
                let mut failures: Vec<TuiFailure> = Vec::new();
                core::mem::swap(&mut failures, &mut self.tui_failures);
                assert(self@.failures =~= Seq::empty());
                joined(out, write_tui_failures(&failures))
            },
            _ => Vec::new(),
        }
    }
}

fn stream_event(node: &TaskNode, stream: TaskStream, bytes: &Vec<u8>) -> (r: Vec<Item>)
    ensures
        item_views(r@) == stream_item(node.id@, stream, bytes@),
{
    let mut out: Vec<Item> = Vec::new();
    if bytes.len() > 0 {
        out.push(Item::Event(ExecutionEvent::task_output(node, stream, copy_bytes(bytes))));
    }
    assert(item_views(out@) =~= stream_item(node.id@, stream, bytes@));
    out
}

fn captured_items(node: &TaskNode, output: &CapturedOutput) -> (r: Vec<Item>)
    ensures
        item_views(r@) == output_items(node.id@, output@),
{
    let mut out = stream_event(node, TaskStream::Stdout, &output.stdout);
    let mut more = stream_event(node, TaskStream::Stderr, &output.stderr);
    let ghost a = out@;
    let ghost b = more@;
    out.append(&mut more);
    assert(item_views(out@) =~= item_views(a) + item_views(b));
    out
}

fn plain_items(output: &CapturedOutput) -> (r: Vec<Item>)
    ensures
        item_views(r@) == raw_items(output@),
{
    let mut out: Vec<Item> = Vec::new();
    out.push(Item::Bytes { to_stderr: false, bytes: copy_bytes(&output.stdout) });
    out.push(Item::Bytes { to_stderr: true, bytes: copy_bytes(&output.stderr) });
    assert(item_views(out@) =~= raw_items(output@));
    out
}

fn write_failure_stream(name: &str, bytes: &Vec<u8>) -> (r: Vec<Emission>)
    ensures
        emission_views(r@) == failure_stream(name@, bytes@),
{
    if bytes.len() == 0 {
        let none: Vec<Emission> = Vec::new();
        assert(emission_views(none@) =~= Seq::empty());
        return none;
    }
    joined(write_status(name.to_owned()), write_bytes(bytes, true))
}

fn write_tui_failures(failures: &Vec<TuiFailure>) -> (r: Vec<Emission>)
    ensures
        emission_views(r@) == failures_text(tui_failure_views(failures@)),
{
    let ghost all = tui_failure_views(failures@);
    let mut out: Vec<Emission> = Vec::new();
    let mut i: usize = 0;
    assert(emission_views(out@) =~= failures_text(all.take(0)));
    while i < failures.len()
        invariant
            i <= failures@.len(),
            all == tui_failure_views(failures@),
            emission_views(out@) == failures_text(all.take(i as int)),
        decreases failures.len() - i,
    {
        let ghost next = all.take(i as int + 1);
        assert(next.drop_last() =~= all.take(i as int));
        assert(next.last() == failures[i as int]@);
        let failure = &failures[i];
        let mut text = "\n".to_owned();
        text.append(failure.task.as_str());
        text.append(" captured output:");
        let written = joined(
            joined(write_status(text), write_failure_stream("stdout:", &failure.stdout)),
            write_failure_stream("stderr:", &failure.stderr),
        );
        out = joined(out, written);
        i += 1;
    }
    assert(all.take(i as int) =~= all);
    out
}

/// JSON output says nothing on the standard error, and every event of a run
/// carries the identity of the run and the next number.
pub proof fn law_json_events_are_numbered(sink: SinkView, event: EventView)
    requires
        sink.mode == OutputMode::Json,
        sink.sequence < u64::MAX,
    ensures
        rendered_event(sink, event).1 == seq![
            EmissionView::Json { run_id: sink.run_id, sequence: sink.sequence, event },
        ],
        rendered_event(sink, event).0.sequence == sink.sequence + 1,
        rendered_event(sink, event).0.run_id == sink.run_id,
{
}

} // verus!
