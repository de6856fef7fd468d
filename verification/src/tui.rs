//! The state of the interactive presentation of concurrent task execution.
//!
//! The renderer keeps one bounded scrollback buffer per task, so task output
//! never has to compete for the process-global terminal cursor.

use vstd::prelude::*;
use vstd::string::StringExecFns;

use crate::commands::changelog::{lossy, lossy_text};
use crate::events::{status_label, EventView, ExecutionEvent, TaskStatus, TaskStream};
use crate::sublist::{is_picked, lemma_picked_more, lemma_picked_none};
use crate::text::{chars_of, decimal, number, position, position_from, same, text_of, texts};

verus! {

/// How many lines of a task are kept.
pub const MAX_LINES_PER_TASK: usize = 1_000;

/// What is shown of a task.
#[derive(Debug, Clone, PartialEq, Eq)]
pub struct TaskView {
    pub id: String,
    pub status: Option<TaskStatus>,
    pub elapsed_ms: Option<u128>,
    pub lines: Vec<String>,
    pub stdout_partial: String,
    pub stderr_partial: String,
}

/// What a `TaskView` says.
pub struct Pane {
    pub id: Seq<char>,
    pub status: Option<TaskStatus>,
    pub elapsed_ms: Option<u128>,
    pub lines: Seq<Seq<char>>,
    pub stdout_partial: Seq<char>,
    pub stderr_partial: Seq<char>,
}

impl View for TaskView {
    type V = Pane;

    open spec fn view(&self) -> Pane {
        Pane {
            id: self.id@,
            status: self.status,
            elapsed_ms: self.elapsed_ms,
            lines: texts(self.lines@),
            stdout_partial: self.stdout_partial@,
            stderr_partial: self.stderr_partial@,
        }
    }
}

/// The pane of a task of which nothing is known yet.
pub open spec fn fresh_pane(id: Seq<char>) -> Pane {
    Pane {
        id,
        status: None,
        elapsed_ms: None,
        lines: Seq::empty(),
        stdout_partial: Seq::empty(),
        stderr_partial: Seq::empty(),
    }
}

/// `lines` with one more behind them; the oldest goes where the limit is
/// reached.
pub open spec fn with_line(lines: Seq<Seq<char>>, line: Seq<char>) -> Seq<Seq<char>> {
    if lines.len() == MAX_LINES_PER_TASK {
        lines.drop_first().push(line)
    } else {
        lines.push(line)
    }
}

/// A line of a stream: what goes to the standard error is marked.
pub open spec fn marked(stream: TaskStream, line: Seq<char>) -> Seq<char> {
    match stream {
        TaskStream::Stdout => line,
        TaskStream::Stderr => "! "@ + line,
    }
}

/// `lines` with every complete line of `text` behind them.
pub open spec fn with_text(lines: Seq<Seq<char>>, stream: TaskStream, text: Seq<char>) -> Seq<
    Seq<char>,
>
    decreases text.len(),
{
    let at = position(text, '\n');
    if 0 <= at < text.len() {
        with_text(with_line(lines, marked(stream, text.take(at))), stream, text.skip(at + 1))
    } else {
        lines
    }
}

/// What follows the last newline of `text`.
pub open spec fn last_partial(text: Seq<char>) -> Seq<char>
    decreases text.len(),
{
    let at = position(text, '\n');
    if 0 <= at < text.len() {
        last_partial(text.skip(at + 1))
    } else {
        text
    }
}

/// A pane after a chunk of output.
pub open spec fn appended(pane: Pane, stream: TaskStream, bytes: Seq<u8>) -> Pane {
    match stream {
        TaskStream::Stdout => {
            let text = pane.stdout_partial + lossy(bytes);
            Pane {
                lines: with_text(pane.lines, stream, text),
                stdout_partial: last_partial(text),
                ..pane
            }
        },
        TaskStream::Stderr => {
            let text = pane.stderr_partial + lossy(bytes);
            Pane {
                lines: with_text(pane.lines, stream, text),
                stderr_partial: last_partial(text),
                ..pane
            }
        },
    }
}

/// A pane whose partial lines have become lines.
pub open spec fn flushed_pane(pane: Pane) -> Pane {
    let after_out = if pane.stdout_partial.len() > 0 {
        with_line(pane.lines, pane.stdout_partial)
    } else {
        pane.lines
    };
    let after_err = if pane.stderr_partial.len() > 0 {
        with_line(after_out, marked(TaskStream::Stderr, pane.stderr_partial))
    } else {
        after_out
    };
    Pane {
        lines: after_err,
        stdout_partial: Seq::empty(),
        stderr_partial: Seq::empty(),
        ..pane
    }
}

/// The sign for a status.
pub open spec fn icon_of(status: Option<TaskStatus>) -> Seq<char> {
    match status {
        None => "\u{2839}"@,
        Some(TaskStatus::Completed) => "\u{2713}"@,
        Some(TaskStatus::Cached) => "\u{2713}"@,
        Some(TaskStatus::Failed) => "\u{2717}"@,
        Some(TaskStatus::TimedOut) => "\u{2717}"@,
        Some(TaskStatus::OutputLimit) => "\u{2717}"@,
        Some(TaskStatus::Cancelled) => "\u{d7}"@,
        Some(TaskStatus::Blocked) => "\u{b7}"@,
    }
}

/// `text` with blanks behind it, up to the given width.
pub open spec fn blank_padded(text: Seq<char>, width: nat) -> Seq<char> {
    if text.len() < width {
        text + Seq::new((width - text.len()) as nat, |i: int| ' ')
    } else {
        text
    }
}

/// The line of a task in the list.
pub open spec fn pane_label(pane: Pane) -> Seq<char> {
    icon_of(pane.status) + " "@ + blank_padded(pane.id, 24) + " "@ + (match pane.status {
        Some(status) => status_label(status),
        None => "running"@,
    }) + (match pane.elapsed_ms {
        Some(millis) => " "@ + decimal(millis as nat) + "ms"@,
        None => Seq::empty(),
    })
}

fn padded_text(text: &str, width: usize) -> (r: String)
    ensures
        r@ == blank_padded(text@, width as nat),
{
    let count: usize = chars_of(text).len();
    let mut out = text.to_owned();
    let mut i: usize = count;
    while i < width
        invariant
            count == text@.len(),
            count <= i,
            i <= width || i == count,
            out@ == text@ + Seq::new((i - count) as nat, |k: int| ' '),
        decreases width - i,
    {
        out.push(' ');
        i += 1;
        assert(out@ =~= text@ + Seq::new((i - count) as nat, |k: int| ' '));
    }
    assert(out@ =~= blank_padded(text@, width as nat));
    out
}

fn format_line(stream: TaskStream, line: String) -> (r: String)
    ensures
        r@ == marked(stream, line@),
{
    match stream {
        TaskStream::Stdout => line,
        TaskStream::Stderr => {
            let mut out = "! ".to_owned();
            out.append(line.as_str());
            out
        },
    }
}

impl TaskView {
    pub fn new(id: &str) -> (r: TaskView)
        ensures
            r@ == fresh_pane(id@),
    {
        let r = TaskView {
            id: id.to_owned(),
            status: None,
            elapsed_ms: None,
            lines: Vec::new(),
            stdout_partial: String::new(),
            stderr_partial: String::new(),
        };
        assert(r@.lines =~= Seq::empty());
        assert(r@.stdout_partial =~= Seq::empty());
        assert(r@.stderr_partial =~= Seq::empty());
        r
    }

    fn push_line(&mut self, line: String)
        ensures
            final(self)@ == (Pane { lines: with_line(old(self)@.lines, line@), ..old(self)@ }),
    {
        let ghost before = texts(self.lines@);
        let ghost view = line@;
        if self.lines.len() == MAX_LINES_PER_TASK {
            self.lines.remove(0);
            assert(texts(self.lines@) =~= before.drop_first());
        }
        let ghost middle = texts(self.lines@);
        self.lines.push(line);
        assert(texts(self.lines@) =~= middle.push(view));
    }

    /// A chunk of output.
    pub fn append(&mut self, stream: TaskStream, bytes: &Vec<u8>)
        ensures
            final(self)@ == appended(old(self)@, stream, bytes@),
    {
        let mut text = match stream {
            TaskStream::Stdout => self.stdout_partial.clone(),
            TaskStream::Stderr => self.stderr_partial.clone(),
        };
        text.append(lossy_text(bytes).as_str());
        let chars = chars_of(text.as_str());
        let ghost all = text@;
        let ghost start = self@;
        let mut from: usize = 0;
        assert(all.skip(0) =~= all);
        loop
            invariant
                from <= chars@.len(),
                chars@ == all,
                self@ == (Pane { lines: self@.lines, ..start }),
                with_text(start.lines, stream, all) == with_text(
                    self@.lines,
                    stream,
                    all.skip(from as int),
                ),
                last_partial(all) == last_partial(all.skip(from as int)),
            ensures
                self@ == (Pane { lines: with_text(start.lines, stream, all), ..start }),
                from <= chars@.len(),
                chars@ == all,
                last_partial(all) == all.skip(from as int),
            decreases chars.len() - from,
        {
            let ghost left = all.skip(from as int);
            proof {
                crate::text::lemma_position_bounds(left, '\n');
            }
            let at: usize = position_from(&chars, '\n', from);
            if at == chars.len() {
                break;
            }
            let line = text_of(&chars, from, at);
            assert(line@ =~= left.take(at - from));
            assert(left.skip(at - from + 1) =~= all.skip(at as int + 1));
            self.push_line(format_line(stream, line));
            from = at + 1;
        }
        let rest = text_of(&chars, from, chars.len());
        assert(rest@ =~= all.skip(from as int));
        match stream {
            TaskStream::Stdout => {
                self.stdout_partial = rest;
            },
            TaskStream::Stderr => {
                self.stderr_partial = rest;
            },
        }
    }

    /// Show what has no newline behind it yet.
    pub fn flush_partial(&mut self)
        ensures
            final(self)@ == flushed_pane(old(self)@),
    {
        let stdout = self.stdout_partial.clone();
        let stderr = self.stderr_partial.clone();
        self.stdout_partial = String::new();
        self.stderr_partial = String::new();
        assert(self@.stdout_partial =~= Seq::empty());
        assert(self@.stderr_partial =~= Seq::empty());
        if chars_of(stdout.as_str()).len() > 0 {
            self.push_line(stdout);
        }
        if chars_of(stderr.as_str()).len() > 0 {
            self.push_line(format_line(TaskStream::Stderr, stderr));
        }
    }

    /// The line of the task in the list.
    pub fn label(&self) -> (r: String)
        ensures
            r@ == pane_label(self@),
    {
        let icon: &str = match self.status {
            None => "\u{2839}",
            Some(TaskStatus::Completed) => "\u{2713}",
            Some(TaskStatus::Cached) => "\u{2713}",
            Some(TaskStatus::Failed) => "\u{2717}",
            Some(TaskStatus::TimedOut) => "\u{2717}",
            Some(TaskStatus::OutputLimit) => "\u{2717}",
            Some(TaskStatus::Cancelled) => "\u{d7}",
            Some(TaskStatus::Blocked) => "\u{b7}",
        };
        let mut text = icon.to_owned();
        text.append(" ");
        text.append(padded_text(self.id.as_str(), 24).as_str());
        text.append(" ");
        match self.status {
            Some(status) => {
                text.append(status.label());
            },
            None => {
                text.append("running");
            },
        }
        let ghost before = text@;
        match self.elapsed_ms {
            Some(millis) => {
                let mut elapsed = " ".to_owned();
                elapsed.append(number(millis).as_str());
                elapsed.append("ms");
                text.append(elapsed.as_str());
            },
            None => {
                assert(text@ =~= before + Seq::empty());
            },
        }
        text
    }
}

/// The state of the renderer.
#[derive(Debug, Clone, PartialEq, Eq)]
pub struct TuiApp {
    pub tasks: Vec<TaskView>,
    pub selected: usize,
    pub follow_tail: bool,
    pub scroll: u16,
    pub finished: bool,
}

/// What a `TuiApp` says.
pub struct Screen {
    pub panes: Seq<Pane>,
    pub selected: usize,
    pub follow_tail: bool,
    pub scroll: u16,
    pub finished: bool,
}

/// What a list of tasks says.
pub open spec fn panes_of(tasks: Seq<TaskView>) -> Seq<Pane> {
    tasks.map_values(|t: TaskView| t@)
}

impl View for TuiApp {
    type V = Screen;

    open spec fn view(&self) -> Screen {
        Screen {
            panes: panes_of(self.tasks@),
            selected: self.selected,
            follow_tail: self.follow_tail,
            scroll: self.scroll,
            finished: self.finished,
        }
    }
}

/// A message to the renderer.
#[derive(Debug, Clone, PartialEq, Eq)]
pub enum TuiMessage {
    Event(ExecutionEvent),
    Finish,
}

/// The place of the first pane of a task, or the number of panes.
pub open spec fn pane_at(panes: Seq<Pane>, task: Seq<char>) -> int
    decreases panes.len(),
{
    if panes.len() == 0 || panes[0].id == task {
        0
    } else {
        1 + pane_at(panes.drop_first(), task)
    }
}

proof fn lemma_pane_at(panes: Seq<Pane>, task: Seq<char>, at: int)
    requires
        0 <= at <= panes.len(),
        forall|i: int| 0 <= i < at ==> (#[trigger] panes[i]).id != task,
        at < panes.len() ==> panes[at].id == task,
    ensures
        pane_at(panes, task) == at,
    decreases at,
{
    if at > 0 {
        let rest = panes.drop_first();
        assert(panes[0].id != task);
        assert forall|i: int| 0 <= i < at - 1 implies (#[trigger] rest[i]).id != task by {
            assert(rest[i] == panes[i + 1]);
        }
        lemma_pane_at(rest, task, at - 1);
    }
}

/// The panes, with one for the task.
pub open spec fn with_pane(panes: Seq<Pane>, task: Seq<char>) -> Seq<Pane> {
    if pane_at(panes, task) < panes.len() {
        panes
    } else {
        panes.push(fresh_pane(task))
    }
}

/// The panes after an event.
pub open spec fn after_event(panes: Seq<Pane>, event: EventView) -> Seq<Pane> {
    match event {
        EventView::TaskStarted { task, .. } => with_pane(panes, task),
        EventView::TaskAttemptStarted { task, .. } => with_pane(panes, task),
        EventView::TaskOutput { task, stream, bytes, .. } => {
            let at = pane_at(panes, task);
            let all = with_pane(panes, task);
            all.update(at, appended(all[at], stream, bytes))
        },
        EventView::TaskFinished { task, status, elapsed_ms, .. } => {
            let at = pane_at(panes, task);
            let all = with_pane(panes, task);
            all.update(
                at,
                Pane {
                    status: Some(status),
                    elapsed_ms: Some(elapsed_ms),
                    ..flushed_pane(all[at])
                },
            )
        },
        _ => panes,
    }
}

/// How many panes satisfy `is`.
pub open spec fn count_panes(panes: Seq<Pane>, is: spec_fn(Option<TaskStatus>) -> bool) -> nat
    decreases panes.len(),
{
    if panes.len() == 0 {
        0
    } else {
        count_panes(panes.drop_last(), is) + if is(panes.last().status) {
            1nat
        } else {
            0nat
        }
    }
}

/// The line on top of the screen.
pub open spec fn header_text(screen: Screen) -> Seq<char> {
    " mono \u{b7} "@ + decimal(
        count_panes(screen.panes, |s: Option<TaskStatus>| s is None),
    ) + " running \u{b7} "@ + decimal(
        count_panes(screen.panes, |s: Option<TaskStatus>| s == Some(TaskStatus::Completed)),
    ) + " completed \u{b7} "@ + decimal(
        count_panes(
            screen.panes,
            |s: Option<TaskStatus>|
                s == Some(TaskStatus::Failed) || s == Some(TaskStatus::TimedOut) || s == Some(
                    TaskStatus::OutputLimit,
                ),
        ),
    ) + " failed"@ + (if screen.finished {
        " \u{b7} finished"@
    } else {
        ""@
    })
}

/// The keys that mean something.
#[derive(Debug, Clone, Copy, PartialEq, Eq, Structural)]
pub enum Key {
    /// A character, and whether the control key was held.
    Char { c: char, control: bool },
    Down,
    Up,
    PageDown,
    PageUp,
    Other,
}

/// Whether a key asks for the run to end.
pub open spec fn asks_to_quit(key: Key) -> bool {
    match key {
        Key::Char { c, control } => c == 'q' || (c == 'c' && control),
        _ => false,
    }
}

/// The screen with the next task selected.
pub open spec fn next_selected(screen: Screen) -> Screen {
    if screen.panes.len() == 0 {
        screen
    } else {
        Screen {
            selected: if screen.selected + 1 < screen.panes.len() {
                (screen.selected + 1) as usize
            } else {
                (screen.panes.len() - 1) as usize
            },
            follow_tail: true,
            ..screen
        }
    }
}

/// The screen with the previous task selected.
pub open spec fn previous_selected(screen: Screen) -> Screen {
    Screen {
        selected: if screen.selected > 0 {
            (screen.selected - 1) as usize
        } else {
            0
        },
        follow_tail: true,
        ..screen
    }
}

/// The screen scrolled towards the end.
pub open spec fn scrolled_down(screen: Screen) -> Screen {
    if screen.follow_tail {
        screen
    } else {
        Screen {
            scroll: if screen.scroll + 5 <= u16::MAX {
                (screen.scroll + 5) as u16
            } else {
                u16::MAX
            },
            ..screen
        }
    }
}

/// The screen scrolled towards the beginning.
pub open spec fn scrolled_up(screen: Screen) -> Screen {
    if screen.follow_tail {
        Screen { follow_tail: false, scroll: 0, ..screen }
    } else {
        Screen {
            scroll: if screen.scroll >= 5 {
                (screen.scroll - 5) as u16
            } else {
                0
            },
            ..screen
        }
    }
}

/// The screen after a key.
pub open spec fn after_key(screen: Screen, key: Key) -> Screen {
    if asks_to_quit(key) {
        screen
    } else {
        match key {
            Key::Down => next_selected(screen),
            Key::Up => previous_selected(screen),
            Key::PageDown => scrolled_down(screen),
            Key::PageUp => scrolled_up(screen),
            Key::Char { c, .. } => if c == 'j' {
                next_selected(screen)
            } else if c == 'k' {
                previous_selected(screen)
            } else if c == 'g' {
                Screen { follow_tail: false, scroll: 0, ..screen }
            } else if c == 'G' {
                Screen { follow_tail: true, ..screen }
            } else {
                screen
            },
            Key::Other => screen,
        }
    }
}

impl TuiApp {
    /// A screen without tasks.
    pub fn new() -> (r: TuiApp)
        ensures
            r@ == (Screen {
                panes: Seq::empty(),
                selected: 0,
                follow_tail: false,
                scroll: 0,
                finished: false,
            }),
    {
        let r = TuiApp {
            tasks: Vec::new(),
            selected: 0,
            follow_tail: false,
            scroll: 0,
            finished: false,
        };
        assert(r@.panes =~= Seq::empty());
        r
    }

    /// The place of the pane of a task, which is made where there is none.
    fn task_place(&mut self, task: &str) -> (r: usize)
        ensures
            r == pane_at(old(self)@.panes, task@),
            r < final(self).tasks@.len(),
            final(self)@ == (Screen { panes: with_pane(old(self)@.panes, task@), ..old(self)@ }),
    {
        let ghost panes = self@.panes;
        let mut i: usize = 0;
        while i < self.tasks.len()
            invariant
                i <= self.tasks@.len(),
                *self == *old(self),
                panes == panes_of(self.tasks@),
                forall|k: int| 0 <= k < i ==> (#[trigger] panes[k]).id != task@,
            decreases self.tasks.len() - i,
        {
            assert(panes[i as int] == self.tasks[i as int]@);
            if same(self.tasks[i].id.as_str(), task) {
                proof {
                    lemma_pane_at(panes, task@, i as int);
                }
                return i;
            }
            i += 1;
        }
        proof {
            lemma_pane_at(panes, task@, i as int);
        }
        let fresh = TaskView::new(task);
        self.tasks.push(fresh);
        assert(self@.panes =~= panes.push(fresh@));
        i
    }

    /// Take note of an event.
    pub fn apply_event(&mut self, event: ExecutionEvent)
        ensures
            final(self)@ == (Screen { panes: after_event(old(self)@.panes, event@), ..old(self)@ }),
    {
        let ghost panes = self@.panes;
        match event {
            ExecutionEvent::TaskStarted { task, .. } => {
                self.task_place(task.as_str());
            },
            ExecutionEvent::TaskAttemptStarted { task, .. } => {
                self.task_place(task.as_str());
            },
            ExecutionEvent::TaskOutput { task, stream, bytes, .. } => {
                let at: usize = self.task_place(task.as_str());
                let ghost all = self@.panes;
                let mut view = self.tasks.remove(at);
                assert(all[at as int] == view@);
                view.append(stream, &bytes);
                self.tasks.insert(at, view);
                assert(self@.panes =~= all.update(at as int, view@));
            },
            ExecutionEvent::TaskFinished { task, status, elapsed_ms, .. } => {
                let at: usize = self.task_place(task.as_str());
                let ghost all = self@.panes;
                let mut view = self.tasks.remove(at);
                assert(all[at as int] == view@);
                view.flush_partial();
                view.status = Some(status);
                view.elapsed_ms = Some(elapsed_ms);
                self.tasks.insert(at, view);
                assert(self@.panes =~= all.update(at as int, view@));
            },
            _ => {},
        }
    }

    /// Take note of a message; whether it is the last one.
    pub fn apply(&mut self, message: TuiMessage) -> (r: bool)
        ensures
            r == (message is Finish),
            final(self)@ == (match message {
                TuiMessage::Event(event) => Screen {
                    panes: after_event(old(self)@.panes, event@),
                    ..old(self)@
                },
                TuiMessage::Finish => Screen {
                    panes: old(self)@.panes.map_values(|p: Pane| flushed_pane(p)),
                    finished: true,
                    ..old(self)@
                },
            }),
    {
        match message {
            TuiMessage::Event(event) => {
                self.apply_event(event);
                false
            },
            TuiMessage::Finish => {
                let ghost panes = self@.panes;
                let ghost wanted = panes.map_values(|p: Pane| flushed_pane(p));
                let mut waiting: Vec<TaskView> = Vec::new();
                core::mem::swap(&mut waiting, &mut self.tasks);
                let ghost given = waiting@;
                let ghost mut i: int = 0;
                assert(given.skip(0) =~= given);
                assert(panes_of(self.tasks@) =~= wanted.take(0));
                while waiting.len() > 0
                    invariant
                        0 <= i <= given.len(),
                        waiting@ == given.skip(i),
                        panes == panes_of(given),
                        wanted == panes.map_values(|p: Pane| flushed_pane(p)),
                        panes_of(self.tasks@) == wanted.take(i),
                        self.selected == old(self).selected,
                        self.follow_tail == old(self).follow_tail,
                        self.scroll == old(self).scroll,
                    decreases waiting.len(),
                {
                    let ghost before = panes_of(self.tasks@);
                    let mut view = waiting.remove(0);
                    assert(view == given[i]);
                    assert(waiting@ =~= given.skip(i + 1));
                    view.flush_partial();
                    assert(view@ == wanted[i]);
                    self.tasks.push(view);
                    assert(panes_of(self.tasks@) =~= before.push(view@));
                    proof {
                        i = i + 1;
                    }
                    assert(panes_of(self.tasks@) =~= wanted.take(i));
                }
                assert(wanted.take(i) =~= wanted);
                self.finished = true;
                true
            },
        }
    }

    pub fn select_next(&mut self)
        ensures
            final(self)@ == next_selected(old(self)@),
    {
        if self.tasks.len() > 0 {
            let last: usize = self.tasks.len() - 1;
            self.selected = if self.selected < last {
                self.selected + 1
            } else {
                last
            };
            self.follow_tail = true;
        }
    }

    pub fn select_previous(&mut self)
        ensures
            final(self)@ == previous_selected(old(self)@),
    {
        self.selected = if self.selected > 0 {
            self.selected - 1
        } else {
            0
        };
        self.follow_tail = true;
    }

    pub fn scroll_down(&mut self)
        ensures
            final(self)@ == scrolled_down(old(self)@),
    {
        if !self.follow_tail {
            self.scroll = if self.scroll <= u16::MAX - 5 {
                self.scroll + 5
            } else {
                u16::MAX
            };
        }
    }

    pub fn scroll_up(&mut self)
        ensures
            final(self)@ == scrolled_up(old(self)@),
    {
        if self.follow_tail {
            self.follow_tail = false;
            self.scroll = 0;
        } else {
            self.scroll = if self.scroll >= 5 {
                self.scroll - 5
            } else {
                0
            };
        }
    }

    pub fn scroll_to_start(&mut self)
        ensures
            final(self)@ == (Screen { follow_tail: false, scroll: 0, ..old(self)@ }),
    {
        self.follow_tail = false;
        self.scroll = 0;
    }

    /// Take note of a key; whether the run is to be cancelled.
    pub fn handle_key(&mut self, key: Key) -> (r: bool)
        ensures
            r == asks_to_quit(key),
            final(self)@ == after_key(old(self)@, key),
    {
        match key {
            Key::Char { c, control } => {
                if c == 'q' || (c == 'c' && control) {
                    return true;
                }
                if c == 'j' {
                    self.select_next();
                } else if c == 'k' {
                    self.select_previous();
                } else if c == 'g' {
                    self.scroll_to_start();
                } else if c == 'G' {
                    self.follow_tail = true;
                }
            },
            Key::Down => {
                self.select_next();
            },
            Key::Up => {
                self.select_previous();
            },
            Key::PageDown => {
                self.scroll_down();
            },
            Key::PageUp => {
                self.scroll_up();
            },
            Key::Other => {},
        }
        false
    }

    /// The line on top of the screen.
    pub fn header(&self) -> (r: String)
        ensures
            r@ == header_text(self@),
    {
        let ghost panes = self@.panes;
        let ghost is_running = |s: Option<TaskStatus>| s is None;
        let ghost is_completed = |s: Option<TaskStatus>| s == Some(TaskStatus::Completed);
        let ghost is_failed = |s: Option<TaskStatus>|
            s == Some(TaskStatus::Failed) || s == Some(TaskStatus::TimedOut) || s == Some(
                TaskStatus::OutputLimit,
            );
        let mut running: usize = 0;
        let mut completed: usize = 0;
        let mut failed: usize = 0;
        let mut i: usize = 0;
        while i < self.tasks.len()
            invariant
                i <= self.tasks@.len(),
                panes == self@.panes,
                running <= i,
                completed <= i,
                failed <= i,
                is_running == (|s: Option<TaskStatus>| s is None),
                is_completed == (|s: Option<TaskStatus>| s == Some(TaskStatus::Completed)),
                is_failed == (|s: Option<TaskStatus>|
                    s == Some(TaskStatus::Failed) || s == Some(TaskStatus::TimedOut) || s == Some(
                        TaskStatus::OutputLimit,
                    )),
                running == count_panes(panes.take(i as int), is_running),
                completed == count_panes(panes.take(i as int), is_completed),
                failed == count_panes(panes.take(i as int), is_failed),
            decreases self.tasks.len() - i,
        {
            let ghost next = panes.take(i as int + 1);
            assert(next.drop_last() =~= panes.take(i as int));
            assert(next.last() == self.tasks[i as int]@);
            match self.tasks[i].status {
                None => {
                    running += 1;
                },
                Some(TaskStatus::Completed) => {
                    completed += 1;
                },
                Some(TaskStatus::Failed) => {
                    failed += 1;
                },
                Some(TaskStatus::TimedOut) => {
                    failed += 1;
                },
                Some(TaskStatus::OutputLimit) => {
                    failed += 1;
                },
                _ => {},
            }
            i += 1;
        }
        assert(panes.take(i as int) =~= panes);
        let mut text = " mono \u{b7} ".to_owned();
        text.append(number(running as u128).as_str());
        text.append(" running \u{b7} ");
        text.append(number(completed as u128).as_str());
        text.append(" completed \u{b7} ");
        text.append(number(failed as u128).as_str());
        text.append(" failed");
        let ending: &str = if self.finished {
            " \u{b7} finished"
        } else {
            ""
        };
        text.append(ending);
        text
    }

    /// How far the pane of a task is scrolled, where so many of its lines are
    /// visible.
    pub fn pane_scroll(&self, lines: usize, visible: usize) -> (r: u16)
        ensures
            ({
                let hidden: usize = if lines > visible {
                    (lines - visible) as usize
                } else {
                    0
                };
                r == if self.follow_tail || self.scroll > hidden as u16 {
                    hidden as u16
                } else {
                    self.scroll
                }
            }),
    {
        let hidden: usize = if lines > visible {
            lines - visible
        } else {
            0
        };
        let most: u16 = #[verifier::truncate]
        (hidden as u16);
        if self.follow_tail || self.scroll > most {
            most
        } else {
            self.scroll
        }
    }
}

/// No pane ever holds more lines than the limit.
pub proof fn law_scrollback_is_bounded(pane: Pane, stream: TaskStream, bytes: Seq<u8>)
    requires
        pane.lines.len() <= MAX_LINES_PER_TASK,
    ensures
        appended(pane, stream, bytes).lines.len() <= MAX_LINES_PER_TASK,
        flushed_pane(pane).lines.len() <= MAX_LINES_PER_TASK,
{
    let text = match stream {
        TaskStream::Stdout => pane.stdout_partial + lossy(bytes),
        TaskStream::Stderr => pane.stderr_partial + lossy(bytes),
    };
    lemma_bounded(pane.lines, stream, text);
}

proof fn lemma_bounded(lines: Seq<Seq<char>>, stream: TaskStream, text: Seq<char>)
    requires
        lines.len() <= MAX_LINES_PER_TASK,
    ensures
        with_text(lines, stream, text).len() <= MAX_LINES_PER_TASK,
    decreases text.len(),
{
    let at = position(text, '\n');
    if 0 <= at < text.len() {
        lemma_bounded(with_line(lines, marked(stream, text.take(at))), stream, text.skip(at + 1));
    }
}

/// A pane keeps its newest lines: a new one comes last, and the oldest goes only
/// where there are too many.
pub proof fn law_the_newest_lines_are_kept(lines: Seq<Seq<char>>, line: Seq<char>)
    requires
        lines.len() <= MAX_LINES_PER_TASK,
    ensures
        with_line(lines, line).last() == line,
        lines.len() < MAX_LINES_PER_TASK ==> with_line(lines, line) == lines.push(line),
        lines.len() == MAX_LINES_PER_TASK ==> with_line(lines, line) == lines.push(line).skip(1),
{
    if lines.len() == MAX_LINES_PER_TASK {
        assert(with_line(lines, line) =~= lines.push(line).skip(1));
    }
}

/// Each complete line of a text becomes a line of the pane, in order; what no
/// newline ends waits.
pub proof fn law_complete_lines_are_shown_one_by_one(
    lines: Seq<Seq<char>>,
    stream: TaskStream,
    line: Seq<char>,
    rest: Seq<char>,
)
    requires
        !line.contains('\n'),
    ensures
        with_text(lines, stream, line + seq!['\n'] + rest) == with_text(
            with_line(lines, marked(stream, line)),
            stream,
            rest,
        ),
        last_partial(line + seq!['\n'] + rest) == last_partial(rest),
        with_text(lines, stream, line) == lines,
        last_partial(line) == line,
{
    let text = line + seq!['\n'] + rest;
    let n = line.len() as int;
    assert forall|j: int| 0 <= j < n implies #[trigger] text[j] != '\n' by {
        assert(text[j] == line[j]);
        assert(line.contains(line[j]));
    }
    crate::text::lemma_position(text, '\n', n);
    assert(text.take(n) =~= line);
    assert(text.skip(n + 1) =~= rest);
    crate::text::lemma_position_bounds(line, '\n');
}

/// Output continues what waits of its own stream and leaves the other stream
/// alone, and everything else about the pane.
pub proof fn law_output_continues_its_own_stream(pane: Pane, stream: TaskStream, bytes: Seq<u8>)
    ensures
        ({
            let after = appended(pane, stream, bytes);
            let waits = match stream {
                TaskStream::Stdout => pane.stdout_partial,
                TaskStream::Stderr => pane.stderr_partial,
            };
            &&& after.lines == with_text(pane.lines, stream, waits + lossy(bytes))
            &&& stream == TaskStream::Stdout ==> after.stdout_partial == last_partial(
                waits + lossy(bytes),
            ) && after.stderr_partial == pane.stderr_partial
            &&& stream == TaskStream::Stderr ==> after.stderr_partial == last_partial(
                waits + lossy(bytes),
            ) && after.stdout_partial == pane.stdout_partial
            &&& after.id == pane.id && after.status == pane.status && after.elapsed_ms
                == pane.elapsed_ms
        }),
{
}

/// A pane of a task is the first with its name; there is none exactly where no
/// pane has it.
pub proof fn law_a_task_has_the_first_pane_of_its_name(panes: Seq<Pane>, task: Seq<char>)
    ensures
        0 <= pane_at(panes, task) <= panes.len(),
        pane_at(panes, task) < panes.len() ==> panes[pane_at(panes, task)].id == task,
        forall|j: int| 0 <= j < pane_at(panes, task) ==> (#[trigger] panes[j]).id != task,
    decreases panes.len(),
{
    if panes.len() > 0 && panes[0].id != task {
        let rest = panes.drop_first();
        law_a_task_has_the_first_pane_of_its_name(rest, task);
        assert forall|j: int| 0 <= j < pane_at(panes, task) implies (#[trigger] panes[j]).id
            != task by {
            if j > 0 {
                assert(panes[j] == rest[j - 1]);
            }
        }
    }
}

/// The task that an event is about, where it is about one.
pub open spec fn task_of_event(event: EventView) -> Option<Seq<char>> {
    match event {
        EventView::TaskStarted { task, .. } => Some(task),
        EventView::TaskAttemptStarted { task, .. } => Some(task),
        EventView::TaskOutput { task, .. } => Some(task),
        EventView::TaskFinished { task, .. } => Some(task),
        EventView::RunStarted { .. } => None,
        EventView::RunFinished { .. } => None,
    }
}

/// An event changes the pane of its task alone; a task that has none gets one
/// behind the others. Once a task is finished its pane says how and after what
/// time, and nothing of its output waits any more.
pub proof fn law_an_event_changes_one_pane(panes: Seq<Pane>, event: EventView)
    ensures
        task_of_event(event) is None ==> after_event(panes, event) == panes,
        task_of_event(event) matches Some(task) ==> {
            let at = pane_at(panes, task);
            let after = after_event(panes, event);
            &&& after.len() == (if at < panes.len() {
                panes.len()
            } else {
                panes.len() + 1
            })
            &&& after[at].id == task
            &&& forall|i: int|
                0 <= i < panes.len() && i != at ==> #[trigger] after[i] == panes[i]
            &&& event matches EventView::TaskFinished { status, elapsed_ms, .. }
                ==> after[at].status == Some(status) && after[at].elapsed_ms == Some(elapsed_ms)
                && after[at].stdout_partial.len() == 0 && after[at].stderr_partial.len() == 0
        },
{
    if let Some(task) = task_of_event(event) {
        law_a_task_has_the_first_pane_of_its_name(panes, task);
    }
}

/// What waits of both streams is shown at the end, the standard output first.
pub proof fn law_what_waits_is_shown_at_the_end(pane: Pane)
    requires
        pane.lines.len() + 2 <= MAX_LINES_PER_TASK,
    ensures
        flushed_pane(pane).lines == pane.lines + (if pane.stdout_partial.len() > 0 {
            seq![pane.stdout_partial]
        } else {
            Seq::empty()
        }) + (if pane.stderr_partial.len() > 0 {
            seq!["! "@ + pane.stderr_partial]
        } else {
            Seq::empty()
        }),
        flushed_pane(pane).stdout_partial.len() == 0,
        flushed_pane(pane).stderr_partial.len() == 0,
{
    assert(flushed_pane(pane).lines =~= pane.lines + (if pane.stdout_partial.len() > 0 {
        seq![pane.stdout_partial]
    } else {
        Seq::empty()
    }) + (if pane.stderr_partial.len() > 0 {
        seq!["! "@ + pane.stderr_partial]
    } else {
        Seq::empty()
    }));
}

/// The counts on top are the numbers of panes of each kind.
pub proof fn law_panes_are_counted_once(
    panes: Seq<Pane>,
    is: spec_fn(Option<TaskStatus>) -> bool,
)
    ensures
        exists|such: Seq<Pane>| #[trigger]
            have_status(such, panes, is) && such.len() == count_panes(panes, is),
    decreases panes.len(),
{
    let keep = |pane: Pane| is(pane.status);
    if panes.len() == 0 {
        lemma_picked_none(keep);
        assert(panes =~= Seq::empty());
        assert(have_status(Seq::<Pane>::empty(), panes, is));
    } else {
        let front = panes.drop_last();
        law_panes_are_counted_once(front, is);
        let such = choose|such: Seq<Pane>| #[trigger]
            have_status(such, front, is) && such.len() == count_panes(front, is);
        lemma_picked_more(such, panes, keep);
        if is(panes.last().status) {
            assert(have_status(such.push(panes.last()), panes, is));
        } else {
            assert(have_status(such, panes, is));
        }
    }
}

/// Whether `such` holds the panes whose status satisfies `is`.
pub open spec fn have_status(
    such: Seq<Pane>,
    panes: Seq<Pane>,
    is: spec_fn(Option<TaskStatus>) -> bool,
) -> bool {
    is_picked(such, panes, |pane: Pane| is(pane.status))
}

/// Selecting the next task and then the previous one leads back, and stays among
/// the tasks; whichever is selected is followed.
pub proof fn law_selection_stays_among_the_tasks(screen: Screen)
    requires
        screen.panes.len() > 0,
        screen.selected < screen.panes.len(),
        screen.panes.len() <= usize::MAX,
    ensures
        next_selected(screen).selected < screen.panes.len(),
        previous_selected(screen).selected < screen.panes.len(),
        next_selected(screen).follow_tail && previous_selected(screen).follow_tail,
        screen.selected + 1 < screen.panes.len() ==> next_selected(screen).selected
            == screen.selected + 1 && previous_selected(next_selected(screen)).selected
            == screen.selected,
        screen.selected > 0 ==> previous_selected(screen).selected == screen.selected - 1,
        next_selected(screen).panes == screen.panes && previous_selected(screen).panes
            == screen.panes,
{
}

/// A key that asks for the end changes nothing; the others select, scroll, or do
/// nothing, and none changes what a task has shown.
pub proof fn law_keys_select_and_scroll(screen: Screen, key: Key)
    ensures
        after_key(screen, key).panes == screen.panes,
        after_key(screen, key).finished == screen.finished,
        asks_to_quit(key) ==> after_key(screen, key) == screen,
        asks_to_quit(Key::Char { c: 'q', control: false }),
        asks_to_quit(Key::Char { c: 'c', control: true }),
        !asks_to_quit(Key::Char { c: 'c', control: false }),
        after_key(screen, Key::Down) == after_key(screen, Key::Char { c: 'j', control: false }),
        after_key(screen, Key::Up) == after_key(screen, Key::Char { c: 'k', control: false }),
        after_key(screen, Key::Char { c: 'G', control: false }).follow_tail,
        !after_key(screen, Key::Char { c: 'g', control: false }).follow_tail && after_key(
            screen,
            Key::Char { c: 'g', control: false },
        ).scroll == 0,
{
}

/// Scrolling moves by the same step in both directions and never beyond the
/// ends; scrolling up from the tail goes to the beginning and stops following.
pub proof fn law_scrolling_back_undoes_scrolling(screen: Screen)
    ensures
        !screen.follow_tail && screen.scroll >= 5 ==> scrolled_down(scrolled_up(screen)) == screen,
        !screen.follow_tail && screen.scroll <= u16::MAX - 5 ==> scrolled_up(scrolled_down(screen))
            == screen,
        scrolled_up(screen).follow_tail == false,
        screen.follow_tail ==> scrolled_up(screen).scroll == 0 && scrolled_down(screen) == screen,
        !screen.follow_tail ==> scrolled_up(screen).scroll <= screen.scroll
            <= scrolled_down(screen).scroll,
        scrolled_up(screen).panes == screen.panes,
        scrolled_up(screen).selected == screen.selected,
{
}

/// The line of a task names it, padded but never cut, and says how it stands; it
/// ends with the time that it took where that is known.
pub proof fn law_a_label_names_the_task_and_how_it_stands(pane: Pane)
    ensures
        ({
            let label = pane_label(pane);
            let head = icon_of(pane.status) + " "@ + pane.id;
            let word = match pane.status {
                Some(status) => status_label(status),
                None => "running"@,
            };
            let width = if pane.id.len() < 24 {
                24
            } else {
                pane.id.len() as int
            };
            let at = icon_of(pane.status).len() + width + 2;
            &&& head.is_prefix_of(label)
            &&& forall|i: int| head.len() <= i < at ==> #[trigger] label[i] == ' '
            &&& label.skip(at) == word + (match pane.elapsed_ms {
                Some(millis) => " "@ + decimal(millis as nat) + "ms"@,
                None => Seq::empty(),
            })
        }),
{
    reveal_strlit(" ");
    let label = pane_label(pane);
    let head = icon_of(pane.status) + " "@ + pane.id;
    let word = match pane.status {
        Some(status) => status_label(status),
        None => "running"@,
    };
    let took = match pane.elapsed_ms {
        Some(millis) => " "@ + decimal(millis as nat) + "ms"@,
        None => Seq::empty(),
    };
    let front = icon_of(pane.status) + " "@ + blank_padded(pane.id, 24) + " "@;
    assert(label == front + word + took);
    assert(head =~= label.subrange(0, head.len() as int));
    assert(label.skip(front.len() as int) =~= word + took);
}

} // verus!
