//! What the texts that report something promise to name.

use vstd::prelude::*;

use crate::cache::error::{cache_fault_text, CacheFault};
use crate::commands::changelog::{changelog_fault_text, ChangelogFault};
use crate::commands::ci::{
    bracketed, plan_line, redacted, retries_text, summary_text, CiFault, PlanTaskView,
};
use crate::commands::init::{init_fault_text, InitFault};
use crate::commands::list::ListFault;
use crate::error::{text_of_fault, Fault};
use crate::project::error::{fault_text, ProjectFault};
use crate::release::{release_fault_text, ReleaseFault};
use crate::runner::displayed_command;
use crate::runner::error::{exit_text, runner_fault_text, signed_decimal, RunnerFault};
use crate::runner::poll::reason_label;
use crate::scheduler::error::{scheduler_fault_text, SchedulerFault};
use crate::scheduler::summary::ExecutionSummary;
use crate::text::{decimal, join, stands_at};
use crate::workspace::error::{qualified_names, workspace_fault_text, WorkspaceFault};

verus! {

/// Whether a text has some parts in it, one behind the other.
pub open spec fn tells(text: Seq<char>, parts: Seq<Seq<char>>) -> bool
    decreases parts.len(),
{
    parts.len() == 0 || exists|k: int| #[trigger]
        stands_at(text, parts[0], k) && tells(
            text.skip(k + parts[0].len()),
            parts.drop_first(),
        )
}

proof fn lemma_told(
    lead: Seq<char>,
    part: Seq<char>,
    rest: Seq<char>,
    later: Seq<Seq<char>>,
    parts: Seq<Seq<char>>,
)
    requires
        tells(rest, later),
        parts == seq![part] + later,
    ensures
        tells(lead + part + rest, parts),
{
    let text = lead + part + rest;
    let k = lead.len() as int;
    assert(text.subrange(k, k + part.len()) =~= part);
    assert(text.skip(k + part.len()) =~= rest);
    assert(parts.drop_first() =~= later);
    assert(stands_at(text, parts[0], k));
}

proof fn lemma_one(
    a1: Seq<char>,
    p1: Seq<char>,
    end: Seq<char>,
)
    ensures
        tells(a1 + p1 + end, seq![p1]),
{
    lemma_told(a1, p1, end, seq![], seq![p1]);
}

proof fn lemma_two(
    a1: Seq<char>,
    p1: Seq<char>,
    a2: Seq<char>,
    p2: Seq<char>,
    end: Seq<char>,
)
    ensures
        tells(a1 + p1 + a2 + p2 + end, seq![p1, p2]),
{
    lemma_one(a2, p2, end);
    let rest = a2 + p2 + end;
    let parts = seq![p1, p2];
    assert(parts =~= seq![p1] + seq![p2]);
    lemma_told(a1, p1, rest, seq![p2], parts);
    assert(a1 + p1 + rest =~= a1 + p1 + a2 + p2 + end);
}

proof fn lemma_three(
    a1: Seq<char>,
    p1: Seq<char>,
    a2: Seq<char>,
    p2: Seq<char>,
    a3: Seq<char>,
    p3: Seq<char>,
    end: Seq<char>,
)
    ensures
        tells(a1 + p1 + a2 + p2 + a3 + p3 + end, seq![p1, p2, p3]),
{
    lemma_two(a2, p2, a3, p3, end);
    let rest = a2 + p2 + a3 + p3 + end;
    let parts = seq![p1, p2, p3];
    assert(parts =~= seq![p1] + seq![p2, p3]);
    lemma_told(a1, p1, rest, seq![p2, p3], parts);
    assert(a1 + p1 + rest =~= a1 + p1 + a2 + p2 + a3 + p3 + end);
}

proof fn lemma_four(
    a1: Seq<char>,
    p1: Seq<char>,
    a2: Seq<char>,
    p2: Seq<char>,
    a3: Seq<char>,
    p3: Seq<char>,
    a4: Seq<char>,
    p4: Seq<char>,
    end: Seq<char>,
)
    ensures
        tells(a1 + p1 + a2 + p2 + a3 + p3 + a4 + p4 + end, seq![p1, p2, p3, p4]),
{
    lemma_three(a2, p2, a3, p3, a4, p4, end);
    let rest = a2 + p2 + a3 + p3 + a4 + p4 + end;
    let parts = seq![p1, p2, p3, p4];
    assert(parts =~= seq![p1] + seq![p2, p3, p4]);
    lemma_told(a1, p1, rest, seq![p2, p3, p4], parts);
    assert(a1 + p1 + rest =~= a1 + p1 + a2 + p2 + a3 + p3 + a4 + p4 + end);
}

proof fn lemma_five(
    a1: Seq<char>,
    p1: Seq<char>,
    a2: Seq<char>,
    p2: Seq<char>,
    a3: Seq<char>,
    p3: Seq<char>,
    a4: Seq<char>,
    p4: Seq<char>,
    a5: Seq<char>,
    p5: Seq<char>,
    end: Seq<char>,
)
    ensures
        tells(a1 + p1 + a2 + p2 + a3 + p3 + a4 + p4 + a5 + p5 + end, seq![p1, p2, p3, p4, p5]),
{
    lemma_four(a2, p2, a3, p3, a4, p4, a5, p5, end);
    let rest = a2 + p2 + a3 + p3 + a4 + p4 + a5 + p5 + end;
    let parts = seq![p1, p2, p3, p4, p5];
    assert(parts =~= seq![p1] + seq![p2, p3, p4, p5]);
    lemma_told(a1, p1, rest, seq![p2, p3, p4, p5], parts);
    assert(a1 + p1 + rest =~= a1 + p1 + a2 + p2 + a3 + p3 + a4 + p4 + a5 + p5 + end);
}

/// What the report of a failed task has to name.
pub open spec fn named_by_runner(fault: RunnerFault) -> Seq<Seq<char>> {
    match fault {
        RunnerFault::EmptyCommand { project, task } => seq![project, task],
        RunnerFault::Spawn { project, task, command, cwd, source } => seq![
            project,
            task,
            displayed_command(command),
            cwd,
            source.message,
        ],
        RunnerFault::Wait { project, task, source } => seq![project, task, source.message],
        RunnerFault::OutputRead { project, task, stream, source } => seq![
            stream,
            project,
            task,
            source.message,
        ],
        RunnerFault::Terminate { project, task, reason, source } => seq![
            project,
            task,
            reason_label(reason),
            source.message,
        ],
        RunnerFault::OutputLimit { project, task, stream, limit, .. } => seq![
            project,
            task,
            stream,
            decimal(limit as nat),
        ],
        RunnerFault::Cancelled { project, task, .. } => seq![project, task],
        RunnerFault::Failed { project, task, command, cwd, code, .. } => seq![
            project,
            task,
            displayed_command(command),
            cwd,
            exit_text(code),
        ],
        RunnerFault::TimedOut { project, task, command, cwd, timeout, .. } => seq![
            project,
            task,
            displayed_command(command),
            decimal((timeout.nanos / 1_000_000_000) as nat),
            cwd,
        ],
    }
}

/// The text of a failed task names the project and the task, what was run and where,
/// and why it failed.
pub proof fn law_a_failed_task_is_named(fault: RunnerFault)
    ensures
        tells(runner_fault_text(fault), named_by_runner(fault)),
{
    let text = runner_fault_text(fault);
    match fault {
        RunnerFault::EmptyCommand { project, task } => {
            lemma_two("project '"@, project, "' task '"@, task, "' has an empty command"@);
            assert(text =~= "project '"@ + project + "' task '"@ + task
                + "' has an empty command"@);
            assert(named_by_runner(fault) =~= seq![project, task]);
        },
        RunnerFault::Spawn { project, task, command, cwd, source } => {
            lemma_five(
                "could not start "@,
                project,
                "/"@,
                task,
                " ("@,
                displayed_command(command),
                ") in "@,
                cwd,
                ": "@,
                source.message,
                Seq::<char>::empty(),
            );
            assert(text =~= "could not start "@ + project + "/"@ + task + " ("@
                + displayed_command(command) + ") in "@ + cwd + ": "@ + source.message
                + Seq::<char>::empty());
            assert(named_by_runner(fault) =~= seq![
                project,
                task,
                displayed_command(command),
                cwd,
                source.message,
            ]);
        },
        RunnerFault::Wait { project, task, source } => {
            lemma_three(
                "could not wait for "@,
                project,
                "/"@,
                task,
                ": "@,
                source.message,
                Seq::<char>::empty(),
            );
            assert(text =~= "could not wait for "@ + project + "/"@ + task + ": "@
                + source.message + Seq::<char>::empty());
            assert(named_by_runner(fault) =~= seq![project, task, source.message]);
        },
        RunnerFault::OutputRead { project, task, stream, source } => {
            lemma_four(
                "could not read "@,
                stream,
                " for "@,
                project,
                "/"@,
                task,
                ": "@,
                source.message,
                Seq::<char>::empty(),
            );
            assert(text =~= "could not read "@ + stream + " for "@ + project + "/"@ + task
                + ": "@ + source.message + Seq::<char>::empty());
            assert(named_by_runner(fault) =~= seq![stream, project, task, source.message]);
        },
        RunnerFault::Terminate { project, task, reason, source } => {
            lemma_four(
                "could not terminate "@,
                project,
                "/"@,
                task,
                " during "@,
                reason_label(reason),
                ": "@,
                source.message,
                Seq::<char>::empty(),
            );
            assert(text =~= "could not terminate "@ + project + "/"@ + task + " during "@
                + reason_label(reason) + ": "@ + source.message + Seq::<char>::empty());
            assert(named_by_runner(fault) =~= seq![
                project,
                task,
                reason_label(reason),
                source.message,
            ]);
        },
        RunnerFault::OutputLimit { project, task, stream, limit, .. } => {
            lemma_four(
                Seq::<char>::empty(),
                project,
                "/"@,
                task,
                " exceeded the "@,
                stream,
                " output limit of "@,
                decimal(limit as nat),
                " bytes"@,
            );
            assert(text =~= Seq::<char>::empty() + project + "/"@ + task + " exceeded the "@
                + stream + " output limit of "@ + decimal(limit as nat) + " bytes"@);
            assert(named_by_runner(fault) =~= seq![project, task, stream, decimal(limit as nat)]);
        },
        RunnerFault::Cancelled { project, task, .. } => {
            lemma_two(Seq::<char>::empty(), project, "/"@, task, " was cancelled"@);
            assert(text =~= Seq::<char>::empty() + project + "/"@ + task + " was cancelled"@);
            assert(named_by_runner(fault) =~= seq![project, task]);
        },
        RunnerFault::Failed { project, task, command, cwd, code, .. } => {
            lemma_five(
                Seq::<char>::empty(),
                project,
                "/"@,
                task,
                " ("@,
                displayed_command(command),
                ") failed in "@,
                cwd,
                " with exit status "@,
                exit_text(code),
                Seq::<char>::empty(),
            );
            assert(text =~= Seq::<char>::empty() + project + "/"@ + task + " ("@
                + displayed_command(command) + ") failed in "@ + cwd + " with exit status "@
                + exit_text(code) + Seq::<char>::empty());
            assert(named_by_runner(fault) =~= seq![
                project,
                task,
                displayed_command(command),
                cwd,
                exit_text(code),
            ]);
        },
        RunnerFault::TimedOut { project, task, command, cwd, timeout, .. } => {
            lemma_five(
                Seq::<char>::empty(),
                project,
                "/"@,
                task,
                " ("@,
                displayed_command(command),
                ") timed out after "@,
                decimal((timeout.nanos / 1_000_000_000) as nat),
                "s in "@,
                cwd,
                Seq::<char>::empty(),
            );
            assert(text =~= Seq::<char>::empty() + project + "/"@ + task + " ("@
                + displayed_command(command) + ") timed out after "@
                + decimal((timeout.nanos / 1_000_000_000) as nat) + "s in "@ + cwd
                + Seq::<char>::empty());
            assert(named_by_runner(fault) =~= seq![
                project,
                task,
                displayed_command(command),
                decimal((timeout.nanos / 1_000_000_000) as nat),
                cwd,
            ]);
        },
    }
}

/// What the report on a project has to name.
pub open spec fn named_by_project(fault: ProjectFault) -> Seq<Seq<char>> {
    match fault {
        ProjectFault::Io { path, source } => seq![path, source.message],
        ProjectFault::TaskDirectory { task, path, source } => seq![task, path, source.message],
        ProjectFault::Parse { path, source } => seq![path, source],
        ProjectFault::MissingRoot { start } => seq![start],
        ProjectFault::InvalidManifest { path, message } => seq![path, message],
        ProjectFault::InvalidProject { message } => seq![message],
        ProjectFault::UnknownPipeline { name, suggestion: None } => seq![name],
        ProjectFault::UnknownPipeline { name, suggestion: Some(close) } => seq![name, close],
        ProjectFault::InvalidTaskName { task } => seq![task],
        ProjectFault::InvalidTask { task, message } => seq![task, message],
        ProjectFault::MissingTask { task, suggestion: None } => seq![task],
        ProjectFault::MissingTask { task, suggestion: Some(close) } => seq![task, close],
        ProjectFault::InvalidTaskReference { reference, from } => seq![reference, from],
        ProjectFault::TaskCycle { path } => seq![join(path, " -> "@)],
        ProjectFault::UnsupportedSchema { path, found, supported } => seq![
            decimal(found as nat),
            path,
            decimal(supported as nat),
        ],
    }
}

/// The text of what is wrong with a project names the place and what is wrong there,
/// and the name that may have been meant where there is one.
pub proof fn law_a_broken_project_is_explained(fault: ProjectFault)
    ensures
        tells(fault_text(fault), named_by_project(fault)),
{
    let text = fault_text(fault);
    match fault {
        ProjectFault::Io { path, source } => {
            lemma_two("could not read "@, path, ": "@, source.message, Seq::<char>::empty());
            assert(text =~= "could not read "@ + path + ": "@ + source.message
                + Seq::<char>::empty());
            assert(named_by_project(fault) =~= seq![path, source.message]);
        },
        ProjectFault::TaskDirectory { task, path, source } => {
            lemma_three(
                "task '"@,
                task,
                "': could not resolve cwd "@,
                path,
                ": "@,
                source.message,
                Seq::<char>::empty(),
            );
            assert(text =~= "task '"@ + task + "': could not resolve cwd "@ + path + ": "@
                + source.message + Seq::<char>::empty());
            assert(named_by_project(fault) =~= seq![task, path, source.message]);
        },
        ProjectFault::Parse { path, source } => {
            lemma_two("could not parse "@, path, ": "@, source, Seq::<char>::empty());
            assert(text =~= "could not parse "@ + path + ": "@ + source + Seq::<char>::empty());
            assert(named_by_project(fault) =~= seq![path, source]);
        },
        ProjectFault::MissingRoot { start } => {
            lemma_one("could not find a root mono.toml from "@, start, Seq::<char>::empty());
            assert(text =~= "could not find a root mono.toml from "@ + start
                + Seq::<char>::empty());
            assert(named_by_project(fault) =~= seq![start]);
        },
        ProjectFault::InvalidManifest { path, message } => {
            lemma_two("invalid manifest "@, path, ": "@, message, Seq::<char>::empty());
            assert(text =~= "invalid manifest "@ + path + ": "@ + message + Seq::<char>::empty());
            assert(named_by_project(fault) =~= seq![path, message]);
        },
        ProjectFault::InvalidProject { message } => {
            lemma_one("invalid project: "@, message, Seq::<char>::empty());
            assert(text =~= "invalid project: "@ + message + Seq::<char>::empty());
            assert(named_by_project(fault) =~= seq![message]);
        },
        ProjectFault::UnknownPipeline { name, suggestion: None } => {
            lemma_one("unknown pipeline '"@, name, "'"@);
            assert(text =~= "unknown pipeline '"@ + name + "'"@);
            assert(named_by_project(fault) =~= seq![name]);
        },
        ProjectFault::UnknownPipeline { name, suggestion: Some(close) } => {
            lemma_two("unknown pipeline '"@, name, ("'"@ + ". Did you mean '"@), close, "'?"@);
            assert(text =~= "unknown pipeline '"@ + name + ("'"@ + ". Did you mean '"@) + close
                + "'?"@);
            assert(named_by_project(fault) =~= seq![name, close]);
        },
        ProjectFault::InvalidTaskName { task } => {
            lemma_one("invalid task name '"@, task, "'"@);
            assert(text =~= "invalid task name '"@ + task + "'"@);
            assert(named_by_project(fault) =~= seq![task]);
        },
        ProjectFault::InvalidTask { task, message } => {
            lemma_two("invalid task '"@, task, "': "@, message, Seq::<char>::empty());
            assert(text =~= "invalid task '"@ + task + "': "@ + message + Seq::<char>::empty());
            assert(named_by_project(fault) =~= seq![task, message]);
        },
        ProjectFault::MissingTask { task, suggestion: None } => {
            lemma_one("project has no task '"@, task, "'"@);
            assert(text =~= "project has no task '"@ + task + "'"@);
            assert(named_by_project(fault) =~= seq![task]);
        },
        ProjectFault::MissingTask { task, suggestion: Some(close) } => {
            lemma_two("project has no task '"@, task, ("'"@ + ". Did you mean '"@), close, "'?"@);
            assert(text =~= "project has no task '"@ + task + ("'"@ + ". Did you mean '"@)
                + close + "'?"@);
            assert(named_by_project(fault) =~= seq![task, close]);
        },
        ProjectFault::InvalidTaskReference { reference, from } => {
            lemma_two("invalid task reference '"@, reference, "' from '"@, from, "'"@);
            assert(text =~= "invalid task reference '"@ + reference + "' from '"@ + from + "'"@);
            assert(named_by_project(fault) =~= seq![reference, from]);
        },
        ProjectFault::TaskCycle { path } => {
            lemma_one(
                "task dependency cycle detected: "@,
                join(path, " -> "@),
                Seq::<char>::empty(),
            );
            assert(text =~= "task dependency cycle detected: "@ + join(path, " -> "@)
                + Seq::<char>::empty());
            assert(named_by_project(fault) =~= seq![join(path, " -> "@)]);
        },
        ProjectFault::UnsupportedSchema { path, found, supported } => {
            lemma_three(
                "unsupported manifest schema "@,
                decimal(found as nat),
                " in "@,
                path,
                "; supported schema is "@,
                decimal(supported as nat),
                Seq::<char>::empty(),
            );
            assert(text =~= "unsupported manifest schema "@ + decimal(found as nat) + " in "@
                + path + "; supported schema is "@ + decimal(supported as nat)
                + Seq::<char>::empty());
            assert(named_by_project(fault) =~= seq![
                decimal(found as nat),
                path,
                decimal(supported as nat),
            ]);
        },
    }
}

/// What the report on a workspace has to name.
pub open spec fn named_by_workspace(fault: WorkspaceFault) -> Seq<Seq<char>> {
    match fault {
        WorkspaceFault::Io { path, source } => seq![path, source.message],
        WorkspaceFault::Parse { path, source } => seq![path, source],
        WorkspaceFault::MissingRoot { start } => seq![start],
        WorkspaceFault::MissingPackageManifest { path } => seq![path],
        WorkspaceFault::InvalidManifest { path, message } => seq![path, message],
        WorkspaceFault::InvalidWorkspace { message } => seq![message],
        WorkspaceFault::InvalidMemberPattern { pattern } => seq![pattern],
        WorkspaceFault::DuplicatePackage { name } => seq![name],
        WorkspaceFault::UnknownPackage { name, suggestion: None } => seq![name],
        WorkspaceFault::UnknownPackage { name, suggestion: Some(close) } => seq![name, close],
        WorkspaceFault::UnknownPipeline { name, suggestion: None } => seq![name],
        WorkspaceFault::UnknownPipeline { name, suggestion: Some(close) } => seq![name, close],
        WorkspaceFault::InvalidTaskName { package, task } => seq![package, task],
        WorkspaceFault::InvalidTask { package, task, message } => seq![package, task, message],
        WorkspaceFault::MissingTask { package, task, suggestion: None } => seq![package, task],
        WorkspaceFault::MissingTask { package, task, suggestion: Some(close) } => seq![
            package,
            task,
            close,
        ],
        WorkspaceFault::InvalidTaskReference { reference, from } => seq![reference, from.0, from.1],
        WorkspaceFault::TaskOutsideSelectedPackage { package, selected } => seq![package, selected],
        WorkspaceFault::TaskCycle { path } => seq![join(qualified_names(path), " -> "@)],
    }
}

/// The text of what is wrong with a workspace names the place and what is wrong
/// there, tasks by package and name, and the name that may have been meant where there
/// is one.
pub proof fn law_a_broken_workspace_is_explained(fault: WorkspaceFault)
    ensures
        tells(workspace_fault_text(fault), named_by_workspace(fault)),
{
    let text = workspace_fault_text(fault);
    match fault {
        WorkspaceFault::Io { path, source } => {
            lemma_two("could not read "@, path, ": "@, source.message, Seq::<char>::empty());
            assert(text =~= "could not read "@ + path + ": "@ + source.message
                + Seq::<char>::empty());
            assert(named_by_workspace(fault) =~= seq![path, source.message]);
        },
        WorkspaceFault::Parse { path, source } => {
            lemma_two("could not parse "@, path, ": "@, source, Seq::<char>::empty());
            assert(text =~= "could not parse "@ + path + ": "@ + source + Seq::<char>::empty());
            assert(named_by_workspace(fault) =~= seq![path, source]);
        },
        WorkspaceFault::MissingRoot { start } => {
            lemma_one("could not find a root monorepo.toml from "@, start, Seq::<char>::empty());
            assert(text =~= "could not find a root monorepo.toml from "@ + start
                + Seq::<char>::empty());
            assert(named_by_workspace(fault) =~= seq![start]);
        },
        WorkspaceFault::MissingPackageManifest { path } => {
            lemma_one("workspace member is missing "@, path, Seq::<char>::empty());
            assert(text =~= "workspace member is missing "@ + path + Seq::<char>::empty());
            assert(named_by_workspace(fault) =~= seq![path]);
        },
        WorkspaceFault::InvalidManifest { path, message } => {
            lemma_two("invalid manifest "@, path, ": "@, message, Seq::<char>::empty());
            assert(text =~= "invalid manifest "@ + path + ": "@ + message + Seq::<char>::empty());
            assert(named_by_workspace(fault) =~= seq![path, message]);
        },
        WorkspaceFault::InvalidWorkspace { message } => {
            lemma_one("invalid workspace: "@, message, Seq::<char>::empty());
            assert(text =~= "invalid workspace: "@ + message + Seq::<char>::empty());
            assert(named_by_workspace(fault) =~= seq![message]);
        },
        WorkspaceFault::InvalidMemberPattern { pattern } => {
            lemma_one("invalid workspace member pattern '"@, pattern, "'"@);
            assert(text =~= "invalid workspace member pattern '"@ + pattern + "'"@);
            assert(named_by_workspace(fault) =~= seq![pattern]);
        },
        WorkspaceFault::DuplicatePackage { name } => {
            lemma_one("duplicate package name '"@, name, "'"@);
            assert(text =~= "duplicate package name '"@ + name + "'"@);
            assert(named_by_workspace(fault) =~= seq![name]);
        },
        WorkspaceFault::UnknownPackage { name, suggestion: None } => {
            lemma_one("unknown package '"@, name, "'"@);
            assert(text =~= "unknown package '"@ + name + "'"@);
            assert(named_by_workspace(fault) =~= seq![name]);
        },
        WorkspaceFault::UnknownPackage { name, suggestion: Some(close) } => {
            lemma_two("unknown package '"@, name, ("'"@ + ". Did you mean '"@), close, "'?"@);
            assert(text =~= "unknown package '"@ + name + ("'"@ + ". Did you mean '"@) + close
                + "'?"@);
            assert(named_by_workspace(fault) =~= seq![name, close]);
        },
        WorkspaceFault::UnknownPipeline { name, suggestion: None } => {
            lemma_one("unknown pipeline '"@, name, "'"@);
            assert(text =~= "unknown pipeline '"@ + name + "'"@);
            assert(named_by_workspace(fault) =~= seq![name]);
        },
        WorkspaceFault::UnknownPipeline { name, suggestion: Some(close) } => {
            lemma_two("unknown pipeline '"@, name, ("'"@ + ". Did you mean '"@), close, "'?"@);
            assert(text =~= "unknown pipeline '"@ + name + ("'"@ + ". Did you mean '"@) + close
                + "'?"@);
            assert(named_by_workspace(fault) =~= seq![name, close]);
        },
        WorkspaceFault::InvalidTaskName { package, task } => {
            lemma_two("invalid task name '"@, package, ":"@, task, "'"@);
            assert(text =~= "invalid task name '"@ + package + ":"@ + task + "'"@);
            assert(named_by_workspace(fault) =~= seq![package, task]);
        },
        WorkspaceFault::InvalidTask { package, task, message } => {
            lemma_three(
                "invalid task '"@,
                package,
                ":"@,
                task,
                "': "@,
                message,
                Seq::<char>::empty(),
            );
            assert(text =~= "invalid task '"@ + package + ":"@ + task + "': "@ + message
                + Seq::<char>::empty());
            assert(named_by_workspace(fault) =~= seq![package, task, message]);
        },
        WorkspaceFault::MissingTask { package, task, suggestion: None } => {
            lemma_two("package '"@, package, "' has no task '"@, task, "'"@);
            assert(text =~= "package '"@ + package + "' has no task '"@ + task + "'"@);
            assert(named_by_workspace(fault) =~= seq![package, task]);
        },
        WorkspaceFault::MissingTask { package, task, suggestion: Some(close) } => {
            lemma_three(
                "package '"@,
                package,
                "' has no task '"@,
                task,
                ("'"@ + ". Did you mean '"@),
                close,
                "'?"@,
            );
            assert(text =~= "package '"@ + package + "' has no task '"@ + task
                + ("'"@ + ". Did you mean '"@) + close + "'?"@);
            assert(named_by_workspace(fault) =~= seq![package, task, close]);
        },
        WorkspaceFault::InvalidTaskReference { reference, from } => {
            lemma_three(
                "invalid task reference '"@,
                reference,
                "' from '"@,
                from.0,
                ":"@,
                from.1,
                "'"@,
            );
            assert(text =~= "invalid task reference '"@ + reference + "' from '"@ + from.0 + ":"@
                + from.1 + "'"@);
            assert(named_by_workspace(fault) =~= seq![reference, from.0, from.1]);
        },
        WorkspaceFault::TaskOutsideSelectedPackage { package, selected } => {
            lemma_two(
                "task root belongs to package '"@,
                package,
                "', but package selection is '"@,
                selected,
                "'; omit --package for workspace tasks or select a package task"@,
            );
            assert(text =~= "task root belongs to package '"@ + package
                + "', but package selection is '"@ + selected
                + "'; omit --package for workspace tasks or select a package task"@);
            assert(named_by_workspace(fault) =~= seq![package, selected]);
        },
        WorkspaceFault::TaskCycle { path } => {
            lemma_one(
                "task dependency cycle detected: "@,
                join(qualified_names(path), " -> "@),
                Seq::<char>::empty(),
            );
            assert(text =~= "task dependency cycle detected: "@
                + join(qualified_names(path), " -> "@) + Seq::<char>::empty());
            assert(named_by_workspace(fault) =~= seq![join(qualified_names(path), " -> "@)]);
        },
    }
}

/// What the report on a changelog has to name.
pub open spec fn named_by_changelog(fault: ChangelogFault) -> Seq<Seq<char>> {
    match fault {
        ChangelogFault::Read { path, source } => seq![path, source.message],
        ChangelogFault::Write { path, source } => seq![path, source.message],
        ChangelogFault::Command { command, source } => seq![command, source.message],
        ChangelogFault::CommandFailed { command, status: None, stderr } => seq![command, stderr],
        ChangelogFault::CommandFailed { command, status: Some(status), stderr } => seq![
            command,
            signed_decimal(status as int),
            stderr,
        ],
        ChangelogFault::Invalid(message) => seq![message],
    }
}

/// The text of what went wrong with a changelog names the file or the command, and why
/// it failed.
pub proof fn law_a_failed_changelog_command_is_explained(fault: ChangelogFault)
    ensures
        tells(changelog_fault_text(fault), named_by_changelog(fault)),
{
    let text = changelog_fault_text(fault);
    match fault {
        ChangelogFault::Read { path, source } => {
            lemma_two("failed to read "@, path, ": "@, source.message, Seq::<char>::empty());
            assert(text =~= "failed to read "@ + path + ": "@ + source.message
                + Seq::<char>::empty());
            assert(named_by_changelog(fault) =~= seq![path, source.message]);
        },
        ChangelogFault::Write { path, source } => {
            lemma_two("failed to write "@, path, ": "@, source.message, Seq::<char>::empty());
            assert(text =~= "failed to write "@ + path + ": "@ + source.message
                + Seq::<char>::empty());
            assert(named_by_changelog(fault) =~= seq![path, source.message]);
        },
        ChangelogFault::Command { command, source } => {
            lemma_two("failed to run `"@, command, "`: "@, source.message, Seq::<char>::empty());
            assert(text =~= "failed to run `"@ + command + "`: "@ + source.message
                + Seq::<char>::empty());
            assert(named_by_changelog(fault) =~= seq![command, source.message]);
        },
        ChangelogFault::CommandFailed { command, status: None, stderr } => {
            lemma_two(
                "`"@,
                command,
                ("` failed"@ + (if stderr.len() > 0 { ": "@ } else { Seq::empty() })),
                stderr,
                Seq::<char>::empty(),
            );
            assert(text =~= "`"@ + command
                + ("` failed"@ + (if stderr.len() > 0 { ": "@ } else { Seq::empty() })) + stderr
                + Seq::<char>::empty());
            assert(named_by_changelog(fault) =~= seq![command, stderr]);
        },
        ChangelogFault::CommandFailed { command, status: Some(status), stderr } => {
            lemma_three(
                "`"@,
                command,
                ("` failed"@ + " with exit status "@),
                signed_decimal(status as int),
                (if stderr.len() > 0 { ": "@ } else { Seq::<char>::empty() }),
                stderr,
                Seq::<char>::empty(),
            );
            assert(text =~= "`"@ + command + ("` failed"@ + " with exit status "@)
                + signed_decimal(status as int)
                + (if stderr.len() > 0 { ": "@ } else { Seq::<char>::empty() }) + stderr
                + Seq::<char>::empty());
            assert(named_by_changelog(fault) =~= seq![
                command,
                signed_decimal(status as int),
                stderr,
            ]);
        },
        ChangelogFault::Invalid(message) => {
            lemma_one(Seq::<char>::empty(), message, Seq::<char>::empty());
            assert(text =~= Seq::<char>::empty() + message + Seq::<char>::empty());
            assert(named_by_changelog(fault) =~= seq![message]);
        },
    }
}

/// What the report on a release has to name.
pub open spec fn named_by_release(fault: ReleaseFault) -> Seq<Seq<char>> {
    match fault {
        ReleaseFault::Read { path, source } => seq![path, source.message],
        ReleaseFault::Write { path, source } => seq![path, source.message],
        ReleaseFault::Command(message) => seq![message],
        ReleaseFault::Invalid(message) => seq![message],
    }
}

/// The text of what went wrong with a release names the file, and why it failed.
pub proof fn law_a_failed_release_command_is_explained(fault: ReleaseFault)
    ensures
        tells(release_fault_text(fault), named_by_release(fault)),
{
    let text = release_fault_text(fault);
    match fault {
        ReleaseFault::Read { path, source } => {
            lemma_two("failed to read "@, path, ": "@, source.message, Seq::<char>::empty());
            assert(text =~= "failed to read "@ + path + ": "@ + source.message
                + Seq::<char>::empty());
            assert(named_by_release(fault) =~= seq![path, source.message]);
        },
        ReleaseFault::Write { path, source } => {
            lemma_two("failed to write "@, path, ": "@, source.message, Seq::<char>::empty());
            assert(text =~= "failed to write "@ + path + ": "@ + source.message
                + Seq::<char>::empty());
            assert(named_by_release(fault) =~= seq![path, source.message]);
        },
        ReleaseFault::Command(message) => {
            lemma_one(Seq::<char>::empty(), message, Seq::<char>::empty());
            assert(text =~= Seq::<char>::empty() + message + Seq::<char>::empty());
            assert(named_by_release(fault) =~= seq![message]);
        },
        ReleaseFault::Invalid(message) => {
            lemma_one(Seq::<char>::empty(), message, Seq::<char>::empty());
            assert(text =~= Seq::<char>::empty() + message + Seq::<char>::empty());
            assert(named_by_release(fault) =~= seq![message]);
        },
    }
}

/// What the report on the cache has to name.
pub open spec fn named_by_cache(fault: CacheFault) -> Seq<Seq<char>> {
    match fault {
        CacheFault::Io { path, source } => seq![path, source.message],
        CacheFault::Json { path, source } => seq![path, source],
        CacheFault::Invalid { message } => seq![message],
    }
}

/// The text of what went wrong with the cache names the file, and why it failed.
pub proof fn law_a_failed_cache_is_explained(fault: CacheFault)
    ensures
        tells(cache_fault_text(fault), named_by_cache(fault)),
{
    let text = cache_fault_text(fault);
    match fault {
        CacheFault::Io { path, source } => {
            lemma_two(
                "cache could not access "@,
                path,
                ": "@,
                source.message,
                Seq::<char>::empty(),
            );
            assert(text =~= "cache could not access "@ + path + ": "@ + source.message
                + Seq::<char>::empty());
            assert(named_by_cache(fault) =~= seq![path, source.message]);
        },
        CacheFault::Json { path, source } => {
            lemma_two("cache could not parse "@, path, ": "@, source, Seq::<char>::empty());
            assert(text =~= "cache could not parse "@ + path + ": "@ + source
                + Seq::<char>::empty());
            assert(named_by_cache(fault) =~= seq![path, source]);
        },
        CacheFault::Invalid { message } => {
            lemma_one("invalid cache entry: "@, message, Seq::<char>::empty());
            assert(text =~= "invalid cache entry: "@ + message + Seq::<char>::empty());
            assert(named_by_cache(fault) =~= seq![message]);
        },
    }
}

/// What the report on a new manifest has to name.
pub open spec fn named_by_setup(fault: InitFault) -> Seq<Seq<char>> {
    match fault {
        InitFault::AlreadyInitialized(path) => seq![path],
        InitFault::CreateDir { dir, source } => seq![dir, source.message],
        InitFault::WriteConfig { path, source } => seq![path, source.message],
    }
}

/// The text of a manifest that could not be laid out names the place, and why.
pub proof fn law_a_failed_setup_is_explained(fault: InitFault)
    ensures
        tells(init_fault_text(fault), named_by_setup(fault)),
{
    let text = init_fault_text(fault);
    match fault {
        InitFault::AlreadyInitialized(path) => {
            lemma_one(
                Seq::<char>::empty(),
                path,
                " already exists \u{2014} refusing to overwrite"@,
            );
            assert(text =~= Seq::<char>::empty() + path
                + " already exists \u{2014} refusing to overwrite"@);
            assert(named_by_setup(fault) =~= seq![path]);
        },
        InitFault::CreateDir { dir, source } => {
            lemma_two(
                "could not create directory "@,
                dir,
                ": "@,
                source.message,
                Seq::<char>::empty(),
            );
            assert(text =~= "could not create directory "@ + dir + ": "@ + source.message
                + Seq::<char>::empty());
            assert(named_by_setup(fault) =~= seq![dir, source.message]);
        },
        InitFault::WriteConfig { path, source } => {
            lemma_two("could not write "@, path, ": "@, source.message, Seq::<char>::empty());
            assert(text =~= "could not write "@ + path + ": "@ + source.message
                + Seq::<char>::empty());
            assert(named_by_setup(fault) =~= seq![path, source.message]);
        },
    }
}

/// The text of a failed run is that of the task or of the cache that failed; one
/// about a dependency names it and the task that has it.
pub proof fn law_a_failed_run_is_explained(fault: SchedulerFault)
    ensures
        match fault {
            SchedulerFault::Task(error) => tells(scheduler_fault_text(fault), named_by_runner(error)),
            SchedulerFault::Cache(error) => tells(
                scheduler_fault_text(fault),
                named_by_cache(error),
            ),
            SchedulerFault::UnresolvedDependency { task, dependency } => tells(
                scheduler_fault_text(fault),
                seq![dependency, task],
            ),
            SchedulerFault::Output(error) => tells(
                scheduler_fault_text(fault),
                seq![error.message],
            ),
            _ => true,
        },
{
    let text = scheduler_fault_text(fault);
    match fault {
        SchedulerFault::Task(error) => {
            law_a_failed_task_is_named(error);
        },
        SchedulerFault::Cache(error) => {
            law_a_failed_cache_is_explained(error);
        },
        SchedulerFault::UnresolvedDependency { task, dependency } => {
            lemma_two("scheduler could not resolve '"@, dependency, "' for '"@, task, "'"@);
        },
        SchedulerFault::Output(error) => {
            let end = Seq::<char>::empty();
            lemma_one("could not write task output: "@, error.message, end);
            assert(text =~= "could not write task output: "@ + error.message + end);
        },
        _ => {},
    }
}

/// The summary of a run tells how many tasks were completed, came from the cache,
/// failed, were cancelled and were blocked, each number before its word.
pub proof fn law_a_summary_tells_every_count(summary: ExecutionSummary)
    ensures
        tells(
            summary_text(summary),
            seq![
                decimal(summary.completed as nat) + " completed"@,
                decimal(summary.cached as nat) + " cached"@,
                decimal(summary.failed as nat) + " failed"@,
                decimal(summary.cancelled as nat) + " cancelled"@,
                decimal(summary.blocked as nat) + " blocked"@,
            ],
        ),
{
    let end = Seq::<char>::empty();
    let completed = decimal(summary.completed as nat) + " completed"@;
    let cached = decimal(summary.cached as nat) + " cached"@;
    let failed = decimal(summary.failed as nat) + " failed"@;
    let cancelled = decimal(summary.cancelled as nat) + " cancelled"@;
    let blocked = decimal(summary.blocked as nat) + " blocked"@;
    let comma = seq![',', ' '];
    reveal_strlit(" completed, ");
    reveal_strlit(" completed");
    reveal_strlit(" cached, ");
    reveal_strlit(" cached");
    reveal_strlit(" failed, ");
    reveal_strlit(" failed");
    reveal_strlit(" cancelled, ");
    reveal_strlit(" cancelled");
    assert(" completed, "@ =~= " completed"@ + comma);
    assert(" cached, "@ =~= " cached"@ + comma);
    assert(" failed, "@ =~= " failed"@ + comma);
    assert(" cancelled, "@ =~= " cancelled"@ + comma);
    lemma_five(
        "summary: "@,
        completed,
        comma,
        cached,
        comma,
        failed,
        comma,
        cancelled,
        comma,
        blocked,
        end,
    );
    assert(summary_text(summary) =~= "summary: "@ + completed + comma + cached + comma + failed
        + comma + cancelled + comma + blocked + end);
}

/// The line of a task in a plan tells its limits and every setting that it has:
/// its group, inputs, outputs, retries, the pause before them, that it comes last,
/// and the names of its variables.
pub proof fn law_a_line_tells_every_setting(task: PlanTaskView, k: int)
    ensures
        ({
            let line = plan_line(task);
            &&& tells(line, seq!["[timeout="@ + decimal(task.timeout_seconds as nat) + "s]"@])
            &&& tells(
                line,
                seq!["[max_output_bytes="@ + decimal(task.max_output_bytes as nat) + "]"@],
            )
            &&& task.resource_group matches Some(group) ==> tells(
                line,
                seq!["[resource_group="@ + group + "]"@],
            )
            &&& task.inputs.len() > 0 ==> tells(
                line,
                seq!["[inputs="@ + join(task.inputs, ", "@) + "]"@],
            )
            &&& task.outputs.len() > 0 ==> tells(
                line,
                seq!["[outputs="@ + join(task.outputs, ", "@) + "]"@],
            )
            &&& task.retries > 0 ==> tells(
                line,
                seq!["[retries="@ + decimal(task.retries as nat) + "]"@],
            )
            &&& task.retries > 0 && task.retry_backoff_seconds > 0 ==> tells(
                line,
                seq!["[retry_backoff="@ + decimal(task.retry_backoff_seconds as nat) + "s]"@],
            )
            &&& task.finalizer ==> tells(line, seq!["[finally]"@])
            &&& 0 <= k < task.env.len() ==> tells(
                line,
                seq!["[env "@ + task.env[k] + "=<redacted>]"@],
            )
        }),
{
    let head = "would run "@ + task.id + " in "@ + task.cwd + ": "@ + displayed_command(
        task.command,
    );
    let timeout = " [timeout="@ + decimal(task.timeout_seconds as nat) + "s]"@;
    let limit = " [max_output_bytes="@ + decimal(task.max_output_bytes as nat) + "]"@;
    let group = match task.resource_group {
        Some(group) => " [resource_group="@ + group + "]"@,
        None => Seq::empty(),
    };
    let inputs = bracketed("inputs"@, task.inputs);
    let outputs = bracketed("outputs"@, task.outputs);
    let retries = retries_text(task.retries, task.retry_backoff_seconds);
    let last = if task.finalizer {
        " [finally]"@
    } else {
        Seq::empty()
    };
    let env = redacted(task.env);
    let pieces = seq![head, timeout, limit, group, inputs, outputs, retries, last, env];
    let line = plan_line(task);
    let blank = seq![' '];
    let none = Seq::<char>::empty();
    lemma_nine(head, timeout, limit, group, inputs, outputs, retries, last, env);
    assert(line == strung(pieces)) by {
        let start = head + " [timeout="@ + decimal(task.timeout_seconds as nat) + "s]"@
            + " [max_output_bytes="@ + decimal(task.max_output_bytes as nat) + "]"@;
        assert(start =~= head + timeout + limit);
        assert(line == start + group + inputs + outputs + retries + last + env);
    }
    lemma_blank_before_bracket();
    let part = "[timeout="@ + decimal(task.timeout_seconds as nat) + "s]"@;
    assert(timeout =~= blank + part + none);
    lemma_piece(pieces, 1, blank, part, none);
    let part = "[max_output_bytes="@ + decimal(task.max_output_bytes as nat) + "]"@;
    assert(limit =~= blank + part + none);
    lemma_piece(pieces, 2, blank, part, none);
    if let Some(name) = task.resource_group {
        let part = "[resource_group="@ + name + "]"@;
        assert(group =~= blank + part + none);
        lemma_piece(pieces, 3, blank, part, none);
    }
    if task.inputs.len() > 0 {
        let part = "[inputs="@ + join(task.inputs, ", "@) + "]"@;
        assert(inputs == " ["@ + "inputs"@ + "="@ + join(task.inputs, ", "@) + "]"@);
        assert(inputs =~= blank + part + none);
        lemma_piece(pieces, 4, blank, part, none);
    }
    if task.outputs.len() > 0 {
        let part = "[outputs="@ + join(task.outputs, ", "@) + "]"@;
        assert(outputs == " ["@ + "outputs"@ + "="@ + join(task.outputs, ", "@) + "]"@);
        assert(outputs =~= blank + part + none);
        lemma_piece(pieces, 5, blank, part, none);
    }
    if task.retries > 0 {
        let part = "[retries="@ + decimal(task.retries as nat) + "]"@;
        let pause = if task.retry_backoff_seconds > 0 {
            " [retry_backoff="@ + decimal(task.retry_backoff_seconds as nat) + "s]"@
        } else {
            none
        };
        assert(retries =~= blank + part + pause);
        lemma_piece(pieces, 6, blank, part, pause);
        if task.retry_backoff_seconds > 0 {
            let second = "[retry_backoff="@ + decimal(task.retry_backoff_seconds as nat) + "s]"@;
            assert(retries =~= blank + part + blank + second + none);
            lemma_piece(pieces, 6, blank + part + blank, second, none);
        }
    }
    if task.finalizer {
        assert(last =~= blank + "[finally]"@ + none);
        lemma_piece(pieces, 7, blank, "[finally]"@, none);
    }
    if 0 <= k < task.env.len() {
        let part = "[env "@ + task.env[k] + "=<redacted>]"@;
        let (before, behind) = lemma_redacted(task.env, k);
        lemma_piece(pieces, 8, before, part, behind);
    }
}

/// Some texts, one behind the other.
spec fn strung(pieces: Seq<Seq<char>>) -> Seq<char>
    decreases pieces.len(),
{
    if pieces.len() == 0 {
        Seq::empty()
    } else {
        strung(pieces.drop_last()) + pieces.last()
    }
}

proof fn lemma_strung(pieces: Seq<Seq<char>>, i: int) -> (around: (Seq<char>, Seq<char>))
    requires
        0 <= i < pieces.len(),
    ensures
        strung(pieces) == around.0 + pieces[i] + around.1,
    decreases pieces.len(),
{
    let front = pieces.drop_last();
    if i < front.len() {
        let (before, behind) = lemma_strung(front, i);
        assert(strung(pieces) =~= before + pieces[i] + (behind + pieces.last()));
        (before, behind + pieces.last())
    } else {
        let none = Seq::<char>::empty();
        assert(strung(pieces) =~= strung(front) + pieces[i] + none);
        (strung(front), none)
    }
}

proof fn lemma_piece(
    pieces: Seq<Seq<char>>,
    i: int,
    lead: Seq<char>,
    part: Seq<char>,
    end: Seq<char>,
)
    requires
        0 <= i < pieces.len(),
        pieces[i] == lead + part + end,
    ensures
        tells(strung(pieces), seq![part]),
{
    let (before, behind) = lemma_strung(pieces, i);
    lemma_one(before + lead, part, end + behind);
    assert(strung(pieces) =~= before + lead + part + (end + behind));
}

proof fn lemma_nine(
    a: Seq<char>,
    b: Seq<char>,
    c: Seq<char>,
    d: Seq<char>,
    e: Seq<char>,
    f: Seq<char>,
    g: Seq<char>,
    h: Seq<char>,
    i: Seq<char>,
)
    ensures
        strung(seq![a, b, c, d, e, f, g, h, i]) == a + b + c + d + e + f + g + h + i,
{
    reveal_with_fuel(strung, 10);
    assert(seq![a, b, c, d, e, f, g, h, i].drop_last() =~= seq![a, b, c, d, e, f, g, h]);
    assert(seq![a, b, c, d, e, f, g, h].drop_last() =~= seq![a, b, c, d, e, f, g]);
    assert(seq![a, b, c, d, e, f, g].drop_last() =~= seq![a, b, c, d, e, f]);
    assert(seq![a, b, c, d, e, f].drop_last() =~= seq![a, b, c, d, e]);
    assert(seq![a, b, c, d, e].drop_last() =~= seq![a, b, c, d]);
    assert(seq![a, b, c, d].drop_last() =~= seq![a, b, c]);
    assert(seq![a, b, c].drop_last() =~= seq![a, b]);
    assert(seq![a, b].drop_last() =~= seq![a]);
    assert(seq![a].drop_last() =~= seq![]);
    assert(strung(seq![a]) =~= a);
}

proof fn lemma_blank_before_bracket()
    ensures
        " [timeout="@ == seq![' '] + "[timeout="@,
        " [max_output_bytes="@ == seq![' '] + "[max_output_bytes="@,
        " [resource_group="@ == seq![' '] + "[resource_group="@,
        " ["@ + "inputs"@ + "="@ == seq![' '] + "[inputs="@,
        " ["@ + "outputs"@ + "="@ == seq![' '] + "[outputs="@,
        " [retries="@ == seq![' '] + "[retries="@,
        " [retry_backoff="@ == seq![' '] + "[retry_backoff="@,
        " [finally]"@ == seq![' '] + "[finally]"@,
        " [env "@ == seq![' '] + "[env "@,
{
    reveal_strlit(" [timeout=");
    reveal_strlit("[timeout=");
    reveal_strlit(" [max_output_bytes=");
    reveal_strlit("[max_output_bytes=");
    reveal_strlit(" [resource_group=");
    reveal_strlit("[resource_group=");
    reveal_strlit(" [");
    reveal_strlit("inputs");
    reveal_strlit("outputs");
    reveal_strlit("=");
    reveal_strlit("[inputs=");
    reveal_strlit("[outputs=");
    reveal_strlit(" [retries=");
    reveal_strlit("[retries=");
    reveal_strlit(" [retry_backoff=");
    reveal_strlit("[retry_backoff=");
    reveal_strlit(" [finally]");
    reveal_strlit("[finally]");
    reveal_strlit(" [env ");
    reveal_strlit("[env ");
    assert(" [timeout="@ =~= seq![' '] + "[timeout="@);
    assert(" [max_output_bytes="@ =~= seq![' '] + "[max_output_bytes="@);
    assert(" [resource_group="@ =~= seq![' '] + "[resource_group="@);
    assert(" ["@ + "inputs"@ + "="@ =~= seq![' '] + "[inputs="@);
    assert(" ["@ + "outputs"@ + "="@ =~= seq![' '] + "[outputs="@);
    assert(" [retries="@ =~= seq![' '] + "[retries="@);
    assert(" [retry_backoff="@ =~= seq![' '] + "[retry_backoff="@);
    assert(" [finally]"@ =~= seq![' '] + "[finally]"@);
    assert(" [env "@ =~= seq![' '] + "[env "@);
}

proof fn lemma_redacted(env: Seq<Seq<char>>, k: int) -> (around: (Seq<char>, Seq<char>))
    requires
        0 <= k < env.len(),
    ensures
        redacted(env) == around.0 + ("[env "@ + env[k] + "=<redacted>]"@) + around.1,
    decreases env.len(),
{
    lemma_blank_before_bracket();
    let front = env.drop_last();
    let part = "[env "@ + env[k] + "=<redacted>]"@;
    if k < front.len() {
        let (before, behind) = lemma_redacted(front, k);
        let more = " [env "@ + env.last() + "=<redacted>]"@;
        assert(redacted(env) =~= before + part + (behind + more));
        (before, behind + more)
    } else {
        let before = redacted(front) + seq![' '];
        let end = Seq::<char>::empty();
        assert(redacted(env) =~= before + part + end);
        (before, end)
    }
}

/// Whatever command failed, its text is that of what went wrong in it.
pub proof fn law_every_failure_is_explained(fault: Fault)
    ensures
        tells(
            text_of_fault(fault),
            match fault {
                Fault::Init(error) => named_by_setup(error),
                Fault::Doctor(error) => named_by_project(error),
                Fault::Ci(CiFault::Project(error)) => named_by_project(error),
                Fault::Ci(CiFault::Scheduler(SchedulerFault::Task(error))) => named_by_runner(
                    error,
                ),
                Fault::Ci(CiFault::Scheduler(SchedulerFault::Cache(error))) => named_by_cache(
                    error,
                ),
                Fault::Ci(CiFault::Json { source }) => seq![source],
                Fault::List(ListFault::Project(error)) => named_by_project(error),
                Fault::List(ListFault::Json { source }) => seq![source],
                Fault::Changelog(error) => named_by_changelog(error),
                Fault::Release(error) => named_by_release(error),
                _ => seq![],
            },
        ),
{
    let text = text_of_fault(fault);
    let end = Seq::<char>::empty();
    match fault {
        Fault::Init(error) => {
            law_a_failed_setup_is_explained(error);
        },
        Fault::Doctor(error) => {
            law_a_broken_project_is_explained(error);
        },
        Fault::Ci(CiFault::Project(error)) => {
            law_a_broken_project_is_explained(error);
        },
        Fault::Ci(CiFault::Scheduler(error)) => {
            law_a_failed_run_is_explained(error);
        },
        Fault::Ci(CiFault::Json { source }) => {
            lemma_one("could not serialize JSON output: "@, source, end);
            assert(text =~= "could not serialize JSON output: "@ + source + end);
        },
        Fault::List(ListFault::Project(error)) => {
            law_a_broken_project_is_explained(error);
        },
        Fault::List(ListFault::Json { source }) => {
            lemma_one("could not serialize list output: "@, source, end);
            assert(text =~= "could not serialize list output: "@ + source + end);
        },
        Fault::Changelog(error) => {
            law_a_failed_changelog_command_is_explained(error);
        },
        Fault::Release(error) => {
            law_a_failed_release_command_is_explained(error);
        },
        _ => {},
    }
}

} // verus!
