//! Line framing for concurrent human-readable task output.
//!
//! A task's output can arrive in arbitrary chunks, and independent tasks can
//! produce those chunks concurrently. `StreamFormatter` keeps one partial-line
//! buffer per task and stream so every complete line receives the task prefix
//! that identifies it.

use vstd::prelude::*;
use vstd::utf8::encode_utf8;

use crate::cache::hash::copy_bytes;
use crate::events::TaskStream;
use crate::text::same;

verus! {

/// The unterminated lines of a task.
#[derive(Debug, Clone, PartialEq, Eq)]
pub struct TaskBuffers {
    pub task: String,
    pub stdout: Vec<u8>,
    pub stderr: Vec<u8>,
}

/// What the buffers of a task hold.
pub struct BuffersView {
    pub stdout: Seq<u8>,
    pub stderr: Seq<u8>,
}

/// The unterminated lines of all tasks.
pub type Partials = Map<Seq<char>, BuffersView>;

/// What a list of buffers holds.
pub open spec fn partials_of(tasks: Seq<TaskBuffers>) -> Partials
    decreases tasks.len(),
{
    if tasks.len() == 0 {
        Map::empty()
    } else {
        partials_of(tasks.drop_last()).insert(
            tasks.last().task@,
            BuffersView { stdout: tasks.last().stdout@, stderr: tasks.last().stderr@ },
        )
    }
}

/// What is held of a stream.
pub open spec fn held(partials: Partials, task: Seq<char>, stream: TaskStream) -> Seq<u8> {
    if partials.dom().contains(task) {
        match stream {
            TaskStream::Stdout => partials[task].stdout,
            TaskStream::Stderr => partials[task].stderr,
        }
    } else {
        Seq::empty()
    }
}

/// The place of the first newline, or the length where there is none.
pub open spec fn newline_at(bytes: Seq<u8>) -> int
    decreases bytes.len(),
{
    if bytes.len() == 0 || bytes[0] == 10 {
        0
    } else {
        1 + newline_at(bytes.drop_first())
    }
}

/// A line behind the name of its task.
pub open spec fn prefixed(task: Seq<char>, line: Seq<u8>) -> Seq<u8> {
    seq![91u8] + encode_utf8(task) + seq![93u8, 32u8] + line
}

/// The complete lines of `bytes`, each behind the name of its task.
pub open spec fn framed_lines(task: Seq<char>, bytes: Seq<u8>) -> Seq<u8>
    decreases bytes.len(),
{
    let at = newline_at(bytes);
    if 0 <= at < bytes.len() {
        prefixed(task, bytes.take(at + 1)) + framed_lines(task, bytes.skip(at + 1))
    } else {
        Seq::empty()
    }
}

/// What follows the last newline of `bytes`.
pub open spec fn unterminated(bytes: Seq<u8>) -> Seq<u8>
    decreases bytes.len(),
{
    let at = newline_at(bytes);
    if 0 <= at < bytes.len() {
        unterminated(bytes.skip(at + 1))
    } else {
        bytes
    }
}

/// The unterminated lines after a chunk.
pub open spec fn pushed(
    partials: Partials,
    task: Seq<char>,
    stream: TaskStream,
    bytes: Seq<u8>,
) -> Partials {
    if bytes.len() == 0 {
        partials
    } else {
        let rest = unterminated(held(partials, task, stream) + bytes);
        partials.insert(
            task,
            match stream {
                TaskStream::Stdout => BuffersView {
                    stdout: rest,
                    stderr: held(partials, task, TaskStream::Stderr),
                },
                TaskStream::Stderr => BuffersView {
                    stdout: held(partials, task, TaskStream::Stdout),
                    stderr: rest,
                },
            },
        )
    }
}

/// What a chunk completes.
pub open spec fn completed_by(
    partials: Partials,
    task: Seq<char>,
    stream: TaskStream,
    bytes: Seq<u8>,
) -> Seq<u8> {
    if bytes.len() == 0 {
        Seq::empty()
    } else {
        framed_lines(task, held(partials, task, stream) + bytes)
    }
}

/// The unterminated line of one stream, if there is one, as a line.
pub open spec fn flushed_stream(
    partials: Partials,
    task: Seq<char>,
    stream: TaskStream,
) -> Seq<(TaskStream, Seq<u8>)> {
    let rest = held(partials, task, stream);
    if rest.len() == 0 {
        Seq::empty()
    } else {
        seq![(stream, prefixed(task, rest).push(10))]
    }
}

/// The unterminated lines of a task, as lines.
pub open spec fn flushed(partials: Partials, task: Seq<char>) -> Seq<(TaskStream, Seq<u8>)> {
    flushed_stream(partials, task, TaskStream::Stdout) + flushed_stream(
        partials,
        task,
        TaskStream::Stderr,
    )
}

/// What a list of flushed lines says.
pub open spec fn flushed_views(lines: Seq<(TaskStream, Vec<u8>)>) -> Seq<(TaskStream, Seq<u8>)> {
    lines.map_values(|l: (TaskStream, Vec<u8>)| (l.0, l.1@))
}

pub proof fn lemma_newline_at(bytes: Seq<u8>, at: int)
    requires
        0 <= at <= bytes.len(),
        forall|i: int| 0 <= i < at ==> #[trigger] bytes[i] != 10,
        at < bytes.len() ==> bytes[at] == 10,
    ensures
        newline_at(bytes) == at,
    decreases at,
{
    if at > 0 {
        let rest = bytes.drop_first();
        assert(bytes[0] != 10);
        assert forall|i: int| 0 <= i < at - 1 implies #[trigger] rest[i] != 10 by {
            assert(rest[i] == bytes[i + 1]);
        }
        lemma_newline_at(rest, at - 1);
    }
}

pub proof fn lemma_newline_bounds(bytes: Seq<u8>)
    ensures
        0 <= newline_at(bytes) <= bytes.len(),
        newline_at(bytes) < bytes.len() ==> bytes[newline_at(bytes)] == 10,
        forall|i: int| 0 <= i < newline_at(bytes) ==> #[trigger] bytes[i] != 10,
    decreases bytes.len(),
{
    if bytes.len() > 0 && bytes[0] != 10 {
        let rest = bytes.drop_first();
        lemma_newline_bounds(rest);
        assert forall|i: int| 0 <= i < newline_at(bytes) implies #[trigger] bytes[i] != 10 by {
            if i > 0 {
                assert(bytes[i] == rest[i - 1]);
            }
        }
    }
}

/// It does not matter where output is cut into chunks: the lines that come out
/// are the same, and so is what is held back.
pub proof fn law_chunks_do_not_matter(task: Seq<char>, a: Seq<u8>, b: Seq<u8>)
    ensures
        framed_lines(task, a + b) == framed_lines(task, a) + framed_lines(
            task,
            unterminated(a) + b,
        ),
        unterminated(a + b) == unterminated(unterminated(a) + b),
    decreases a.len(),
{
    lemma_newline_bounds(a);
    let at = newline_at(a);
    if at < a.len() {
        let whole = a + b;
        assert forall|i: int| 0 <= i < at implies #[trigger] whole[i] != 10 by {
            assert(whole[i] == a[i]);
        }
        assert(whole[at] == 10);
        lemma_newline_at(whole, at);
        let rest = a.skip(at + 1);
        law_chunks_do_not_matter(task, rest, b);
        assert(whole.take(at + 1) =~= a.take(at + 1));
        assert(whole.skip(at + 1) =~= rest + b);
        assert(framed_lines(task, whole) =~= framed_lines(task, a) + framed_lines(
            task,
            unterminated(a) + b,
        ));
    } else {
        assert(framed_lines(task, a) =~= Seq::empty());
        assert(framed_lines(task, a + b) =~= Seq::<u8>::empty() + framed_lines(task, a + b));
    }
}

/// What is held back has no complete line in it.
pub proof fn law_nothing_complete_is_held_back(bytes: Seq<u8>)
    ensures
        !unterminated(bytes).contains(10),
    decreases bytes.len(),
{
    lemma_newline_bounds(bytes);
    let at = newline_at(bytes);
    if at < bytes.len() {
        law_nothing_complete_is_held_back(bytes.skip(at + 1));
    } else if bytes.contains(10) {
        let i = choose|i: int| 0 <= i < bytes.len() && bytes[i] == 10;
        assert(bytes[i] != 10);
    }
}

/// The names of buffers.
pub open spec fn buffer_names(tasks: Seq<TaskBuffers>) -> Seq<Seq<char>> {
    tasks.map_values(|t: TaskBuffers| t.task@)
}

proof fn lemma_partials(tasks: Seq<TaskBuffers>, task: Seq<char>)
    requires
        buffer_names(tasks).no_duplicates(),
    ensures
        partials_of(tasks).dom().contains(task) <==> exists|i: int|
            0 <= i < tasks.len() && (#[trigger] tasks[i]).task@ == task,
        forall|i: int|
            0 <= i < tasks.len() && (#[trigger] tasks[i]).task@ == task ==> partials_of(tasks)[task]
                == (BuffersView { stdout: tasks[i].stdout@, stderr: tasks[i].stderr@ }),
    decreases tasks.len(),
{
    if tasks.len() > 0 {
        let front = tasks.drop_last();
        let last = tasks.last();
        lemma_front_names(tasks);
        lemma_partials(front, task);
        assert(tasks[tasks.len() - 1] == last);
        if exists|i: int| 0 <= i < tasks.len() && (#[trigger] tasks[i]).task@ == task {
            let i = choose|i: int| 0 <= i < tasks.len() && (#[trigger] tasks[i]).task@ == task;
            if i < front.len() {
                assert(front[i].task@ == task);
            }
        }
        if exists|i: int| 0 <= i < front.len() && (#[trigger] front[i]).task@ == task {
            let i = choose|i: int| 0 <= i < front.len() && (#[trigger] front[i]).task@ == task;
            assert(tasks[i].task@ == task);
        }
        assert forall|i: int|
            0 <= i < tasks.len() && (#[trigger] tasks[i]).task@ == task implies partials_of(
            tasks,
        )[task] == (BuffersView { stdout: tasks[i].stdout@, stderr: tasks[i].stderr@ }) by {
            if i < front.len() {
                assert(front[i] == tasks[i]);
                assert(buffer_names(tasks)[i] != buffer_names(tasks)[tasks.len() - 1]);
            }
        }
    }
}

proof fn lemma_front_names(tasks: Seq<TaskBuffers>)
    requires
        tasks.len() > 0,
        buffer_names(tasks).no_duplicates(),
    ensures
        buffer_names(tasks.drop_last()).no_duplicates(),
{
    let front = tasks.drop_last();
    assert forall|i: int, j: int|
        0 <= i < front.len() && 0 <= j < front.len() && i != j implies buffer_names(front)[i]
        != buffer_names(front)[j] by {
        assert(buffer_names(tasks)[i] != buffer_names(tasks)[j]);
    }
}

proof fn lemma_removed(tasks: Seq<TaskBuffers>, at: int)
    requires
        0 <= at < tasks.len(),
        buffer_names(tasks).no_duplicates(),
    ensures
        buffer_names(tasks.remove(at)).no_duplicates(),
        partials_of(tasks.remove(at)) == partials_of(tasks).remove(tasks[at].task@),
        !partials_of(tasks.remove(at)).dom().contains(tasks[at].task@),
    decreases tasks.len(),
{
    let rest = tasks.remove(at);
    let names = buffer_names(tasks);
    assert forall|i: int, j: int|
        0 <= i < rest.len() && 0 <= j < rest.len() && i != j implies buffer_names(rest)[i]
        != buffer_names(rest)[j] by {
        let a = if i < at {
            i
        } else {
            i + 1
        };
        let b = if j < at {
            j
        } else {
            j + 1
        };
        assert(names[a] != names[b]);
    }
    let front = tasks.drop_last();
    lemma_front_names(tasks);
    if at == tasks.len() - 1 {
        assert(rest =~= front);
        lemma_partials(front, tasks[at].task@);
        if partials_of(front).dom().contains(tasks[at].task@) {
            let i = choose|i: int|
                0 <= i < front.len() && (#[trigger] front[i]).task@ == tasks[at].task@;
            assert(names[i] != names[at]);
        }
        assert(partials_of(rest) =~= partials_of(tasks).remove(tasks[at].task@));
    } else {
        lemma_removed(front, at);
        assert(rest.drop_last() =~= front.remove(at));
        assert(rest.last() == tasks.last());
        assert(names[at] != names[tasks.len() - 1]);
        assert(partials_of(rest) =~= partials_of(tasks).remove(tasks[at].task@));
    }
}

/// The framing state of all tasks.
#[derive(Debug, Clone, PartialEq, Eq)]
pub struct StreamFormatter {
    pub tasks: Vec<TaskBuffers>,
}

impl View for StreamFormatter {
    type V = Partials;

    open spec fn view(&self) -> Partials {
        partials_of(self.tasks@)
    }
}

fn prefixed_line(task: &str, line: &Vec<u8>) -> (r: Vec<u8>)
    ensures
        r@ == prefixed(task@, line@),
{
    let mut out: Vec<u8> = Vec::new();
    out.push(91);
    let mut name = task.as_bytes_vec();
    out.append(&mut name);
    out.push(93);
    out.push(32);
    let mut rest = copy_bytes(line);
    out.append(&mut rest);
    assert(out@ =~= prefixed(task@, line@));
    out
}

fn slice_of(bytes: &Vec<u8>, from: usize, to: usize) -> (r: Vec<u8>)
    requires
        from <= to <= bytes@.len(),
    ensures
        r@ == bytes@.subrange(from as int, to as int),
{
    let mut out: Vec<u8> = Vec::new();
    let mut i: usize = from;
    while i < to
        invariant
            from <= i <= to <= bytes@.len(),
            out@ == bytes@.subrange(from as int, i as int),
        decreases to - i,
    {
        out.push(bytes[i]);
        i += 1;
        assert(out@ =~= bytes@.subrange(from as int, i as int));
    }
    out
}

/// The complete lines of `bytes`, each behind the name of its task, and what
/// follows them.
fn frame(task: &str, bytes: &Vec<u8>) -> (r: (Vec<u8>, Vec<u8>))
    ensures
        r.0@ == framed_lines(task@, bytes@),
        r.1@ == unterminated(bytes@),
{
    let ghost all = bytes@;
    let mut out: Vec<u8> = Vec::new();
    let mut from: usize = 0;
    let mut i: usize = 0;
    assert(all.skip(0) =~= all);
    assert(out@ + framed_lines(task@, all) =~= framed_lines(task@, all));
    while i < bytes.len()
        invariant
            from <= i <= bytes@.len(),
            all == bytes@,
            forall|k: int| from <= k < i ==> #[trigger] all[k] != 10,
            framed_lines(task@, all) == out@ + framed_lines(task@, all.skip(from as int)),
            unterminated(all) == unterminated(all.skip(from as int)),
        decreases bytes.len() - i,
    {
        if bytes[i] == 10 {
            let ghost left = all.skip(from as int);
            let ghost before = out@;
            let ghost at = i - from;
            assert forall|k: int| 0 <= k < at implies #[trigger] left[k] != 10 by {
                assert(left[k] == all[from + k]);
            }
            proof {
                lemma_newline_at(left, at);
            }
            let line = slice_of(bytes, from, i + 1);
            assert(line@ =~= left.take(at + 1));
            let mut piece = prefixed_line(task, &line);
            out.append(&mut piece);
            assert(left.skip(at + 1) =~= all.skip(i as int + 1));
            assert(before + framed_lines(task@, left) =~= out@ + framed_lines(
                task@,
                all.skip(i as int + 1),
            ));
            from = i + 1;
        }
        i += 1;
    }
    let ghost left = all.skip(from as int);
    assert forall|k: int| 0 <= k < left.len() implies #[trigger] left[k] != 10 by {
        assert(left[k] == all[from + k]);
    }
    proof {
        lemma_newline_at(left, left.len() as int);
    }
    let rest = slice_of(bytes, from, bytes.len());
    assert(rest@ =~= left);
    assert(out@ + framed_lines(task@, left) =~= out@);
    (out, rest)
}

impl StreamFormatter {
    /// No task has two buffers.
    pub open spec fn wf(self) -> bool {
        buffer_names(self.tasks@).no_duplicates()
    }

    /// No framing state.
    pub fn new() -> (r: StreamFormatter)
        ensures
            r.wf(),
            r@ == Map::<Seq<char>, BuffersView>::empty(),
    {
        StreamFormatter { tasks: Vec::new() }
    }

    /// Take the buffers of a task out.
    fn take(&mut self, task: &str) -> (r: TaskBuffers)
        requires
            old(self).wf(),
        ensures
            final(self).wf(),
            final(self)@ == old(self)@.remove(task@),
            r.task@ == task@,
            r.stdout@ == held(old(self)@, task@, TaskStream::Stdout),
            r.stderr@ == held(old(self)@, task@, TaskStream::Stderr),
    {
        let mut i: usize = 0;
        while i < self.tasks.len()
            invariant
                i <= self.tasks@.len(),
                *self == *old(self),
                self.wf(),
                forall|k: int| 0 <= k < i ==> (#[trigger] self.tasks@[k]).task@ != task@,
            decreases self.tasks.len() - i,
        {
            if same(self.tasks[i].task.as_str(), task) {
                proof {
                    lemma_removed(self.tasks@, i as int);
                    lemma_partials(self.tasks@, task@);
                    assert(self.tasks@[i as int].task@ == task@);
                }
                return self.tasks.remove(i);
            }
            i += 1;
        }
        proof {
            lemma_partials(self.tasks@, task@);
            assert(self@.remove(task@) =~= self@);
        }
        let empty = TaskBuffers { task: task.to_owned(), stdout: Vec::new(), stderr: Vec::new() };
        assert(empty.stdout@ =~= Seq::empty());
        assert(empty.stderr@ =~= Seq::empty());
        empty
    }

    fn keep(&mut self, buffers: TaskBuffers)
        requires
            old(self).wf(),
            !old(self)@.dom().contains(buffers.task@),
        ensures
            final(self).wf(),
            final(self)@ == old(self)@.insert(
                buffers.task@,
                BuffersView { stdout: buffers.stdout@, stderr: buffers.stderr@ },
            ),
    {
        let ghost before = self.tasks@;
        self.tasks.push(buffers);
        let ghost after = self.tasks@;
        assert(after.drop_last() =~= before);
        assert forall|i: int, j: int|
            0 <= i < after.len() && 0 <= j < after.len() && i != j implies buffer_names(after)[i]
            != buffer_names(after)[j] by {
            lemma_partials(before, buffers.task@);
            if i < before.len() && j < before.len() {
                assert(buffer_names(before)[i] != buffer_names(before)[j]);
            } else if i < before.len() {
                assert(before[i].task@ != buffers.task@);
            } else {
                assert(before[j].task@ != buffers.task@);
            }
        }
    }

    /// Add a chunk and return all newly completed, prefixed lines.
    pub fn push(&mut self, task: &str, stream: TaskStream, bytes: &Vec<u8>) -> (r: Vec<u8>)
        requires
            old(self).wf(),
        ensures
            final(self).wf(),
            final(self)@ == pushed(old(self)@, task@, stream, bytes@),
            r@ == completed_by(old(self)@, task@, stream, bytes@),
    {
        if bytes.len() == 0 {
            return Vec::new();
        }
        let ghost before = self@;
        let mut buffers = self.take(task);
        let mut all: Vec<u8> = match stream {
            TaskStream::Stdout => copy_bytes(&buffers.stdout),
            TaskStream::Stderr => copy_bytes(&buffers.stderr),
        };
        let mut more = copy_bytes(bytes);
        all.append(&mut more);
        assert(all@ =~= held(before, task@, stream) + bytes@);
        let (framed, rest) = frame(task, &all);
        match stream {
            TaskStream::Stdout => {
                buffers.stdout = rest;
            },
            TaskStream::Stderr => {
                buffers.stderr = rest;
            },
        }
        self.keep(buffers);
        assert(self@ =~= pushed(before, task@, stream, bytes@));
        framed
    }

    /// Flush unterminated lines for a task and discard its framing state.
    pub fn finish(&mut self, task: &str) -> (r: Vec<(TaskStream, Vec<u8>)>)
        requires
            old(self).wf(),
        ensures
            final(self).wf(),
            final(self)@ == old(self)@.remove(task@),
            flushed_views(r@) == flushed(old(self)@, task@),
    {
        let ghost before = self@;
        let buffers = self.take(task);
        let mut out: Vec<(TaskStream, Vec<u8>)> = Vec::new();
        if buffers.stdout.len() > 0 {
            let mut line = prefixed_line(task, &buffers.stdout);
            line.push(10);
            out.push((TaskStream::Stdout, line));
        }
        assert(flushed_views(out@) =~= flushed_stream(before, task@, TaskStream::Stdout));
        if buffers.stderr.len() > 0 {
            let mut line = prefixed_line(task, &buffers.stderr);
            line.push(10);
            out.push((TaskStream::Stderr, line));
        }
        assert(flushed_views(out@) =~= flushed(before, task@));
        out
    }
}

/// Tasks do not disturb each other: what one of them prints leaves what is held
/// of another as it was.
pub proof fn law_tasks_are_independent(
    partials: Partials,
    task: Seq<char>,
    stream: TaskStream,
    bytes: Seq<u8>,
    other: Seq<char>,
    other_stream: TaskStream,
)
    requires
        task != other || stream != other_stream,
    ensures
        held(pushed(partials, task, stream, bytes), other, other_stream) == held(
            partials,
            other,
            other_stream,
        ),
{
}

/// A complete line is written behind the name of its task, and then the lines
/// that follow it; what no newline ends is kept back.
pub proof fn law_complete_lines_are_prefixed_one_by_one(
    task: Seq<char>,
    line: Seq<u8>,
    rest: Seq<u8>,
)
    requires
        !line.contains(10),
    ensures
        framed_lines(task, line + seq![10u8] + rest) == prefixed(task, line + seq![10u8])
            + framed_lines(task, rest),
        unterminated(line + seq![10u8] + rest) == unterminated(rest),
        framed_lines(task, line) == Seq::<u8>::empty(),
        unterminated(line) == line,
{
    let bytes = line + seq![10u8] + rest;
    lemma_newline_after(line, rest);
    let n = line.len() as int;
    assert(bytes.take(n + 1) =~= line + seq![10u8]);
    assert(bytes.skip(n + 1) =~= rest);
    lemma_no_newline(line);
}

proof fn lemma_newline_after(line: Seq<u8>, rest: Seq<u8>)
    requires
        !line.contains(10),
    ensures
        newline_at(line + seq![10u8] + rest) == line.len(),
    decreases line.len(),
{
    let bytes = line + seq![10u8] + rest;
    if line.len() > 0 {
        assert(line.contains(line[0]));
        let tail = line.drop_first();
        assert(!tail.contains(10)) by {
            if tail.contains(10) {
                let i = choose|i: int| 0 <= i < tail.len() && tail[i] == 10;
                assert(line[i + 1] == 10);
            }
        }
        lemma_newline_after(tail, rest);
        assert(bytes.drop_first() =~= tail + seq![10u8] + rest);
        assert(bytes[0] == line[0]);
    }
}

proof fn lemma_no_newline(line: Seq<u8>)
    requires
        !line.contains(10),
    ensures
        newline_at(line) == line.len(),
    decreases line.len(),
{
    if line.len() > 0 {
        assert(line.contains(line[0]));
        let tail = line.drop_first();
        assert(!tail.contains(10)) by {
            if tail.contains(10) {
                let i = choose|i: int| 0 <= i < tail.len() && tail[i] == 10;
                assert(line[i + 1] == 10);
            }
        }
        lemma_no_newline(tail);
    }
}

/// What a chunk adds to a stream is what was held of it with the chunk behind:
/// its complete lines are written, and the rest is held.
pub proof fn law_a_chunk_continues_what_is_held(
    partials: Partials,
    task: Seq<char>,
    stream: TaskStream,
    bytes: Seq<u8>,
)
    requires
        !held(partials, task, stream).contains(10),
    ensures
        completed_by(partials, task, stream, bytes) == framed_lines(
            task,
            held(partials, task, stream) + bytes,
        ),
        held(pushed(partials, task, stream, bytes), task, stream) == unterminated(
            held(partials, task, stream) + bytes,
        ),
{
    let before = held(partials, task, stream);
    if bytes.len() == 0 {
        assert(before + bytes =~= before);
        lemma_no_newline(before);
    }
}

/// At its end a task gives up what is held of its streams, first of the standard
/// output and then of the standard error, each as a line behind its name.
pub proof fn law_held_lines_are_written_at_the_end(partials: Partials, task: Seq<char>)
    ensures
        ({
            let out = held(partials, task, TaskStream::Stdout);
            let err = held(partials, task, TaskStream::Stderr);
            let lines = flushed(partials, task);
            &&& lines.len() == (if out.len() > 0 {
                1nat
            } else {
                0
            }) + (if err.len() > 0 {
                1nat
            } else {
                0
            })
            &&& out.len() > 0 ==> lines[0] == (
                TaskStream::Stdout,
                prefixed(task, out) + seq![10u8],
            )
            &&& err.len() > 0 ==> lines.last() == (
                TaskStream::Stderr,
                prefixed(task, err) + seq![10u8],
            )
        }),
{
    let out = held(partials, task, TaskStream::Stdout);
    let err = held(partials, task, TaskStream::Stderr);
    assert(prefixed(task, out).push(10) =~= prefixed(task, out) + seq![10u8]);
    assert(prefixed(task, err).push(10) =~= prefixed(task, err) + seq![10u8]);
}

} // verus!
