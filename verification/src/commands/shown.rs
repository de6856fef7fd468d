//! What the documents that are printed promise to show.

use vstd::prelude::*;

use crate::commands::ci::{
    document_head, edge_lines, graph_text, plan_line, plan_lines, plan_text, shown_graph,
    shown_plan, GraphDocumentView, PlanDocumentView, PlanTaskView,
};
use crate::commands::list::{listed, pipelines_text, tasks_text, ListPipelineView, ListTaskView};
use crate::project::ProjectView;
use crate::project::planned::PlannedTaskView;
use crate::text::{join, texts};

verus! {

/// The document of a plan shows every task of it, in order, with all its
/// settings; of its environment it shows the names alone.
pub proof fn law_a_plan_shows_every_task(project: ProjectView, plan: Seq<PlannedTaskView>, i: int)
    requires
        0 <= i < plan.len(),
    ensures
        ({
            let document = shown_plan(project, plan);
            let shown = document.tasks[i];
            &&& document.tasks.len() == plan.len()
            &&& document.project == project.name
            &&& document.root == project.root
            &&& shown.id == plan[i].id
            &&& shown.command == plan[i].command
            &&& shown.cwd == plan[i].cwd
            &&& shown.stdin == plan[i].stdin
            &&& shown.cache == plan[i].cache
            &&& shown.inputs == plan[i].inputs
            &&& shown.outputs == plan[i].outputs
            &&& shown.cache_env == plan[i].cache_env
            &&& shown.timeout_seconds == plan[i].timeout.nanos / 1_000_000_000
            &&& shown.max_output_bytes == plan[i].max_output_bytes
            &&& shown.resource_group == plan[i].resource_group
            &&& shown.retries == plan[i].retries
            &&& shown.retry_backoff_seconds == plan[i].retry_backoff.nanos / 1_000_000_000
            &&& shown.finalizer == plan[i].finalizer
            &&& shown.depends_on == plan[i].depends_on
            &&& shown.env.len() == plan[i].env.len()
            &&& forall|k: int|
                0 <= k < shown.env.len() ==> #[trigger] shown.env[k] == plan[i].env[k].0
        }),
{
}

/// The text of a plan is a line for the project and then one line for each
/// task, in order.
pub proof fn law_a_plan_has_one_line_for_each_task(
    document: PlanDocumentView,
    more: PlanTaskView,
)
    ensures
        plan_text(PlanDocumentView { tasks: Seq::empty(), ..document }) == document_head(
            document.project,
            document.root,
        ),
        plan_text(PlanDocumentView { tasks: document.tasks.push(more), ..document }) == plan_text(
            document,
        ) + seq!['\n'] + plan_line(more),
{
    reveal_strlit("\n");
    assert("\n"@ =~= seq!['\n']);
    assert(document.tasks.push(more).drop_last() =~= document.tasks);
    let head = document_head(document.project, document.root);
    assert(head + plan_lines(Seq::empty()) =~= head);
    assert(head + (plan_lines(document.tasks) + ("\n"@ + plan_line(more))) =~= (head + plan_lines(
        document.tasks,
    )) + seq!['\n'] + plan_line(more));
}

/// The line of a task begins with its name, its directory and its command.
pub proof fn law_a_line_begins_with_what_would_run(task: PlanTaskView)
    ensures
        ("would run "@ + task.id + " in "@ + task.cwd + ": "@ + crate::runner::displayed_command(
            task.command,
        )).is_prefix_of(plan_line(task)),
{
    let start = "would run "@ + task.id + " in "@ + task.cwd + ": "@
        + crate::runner::displayed_command(task.command);
    assert(plan_line(task).subrange(0, start.len() as int) =~= start);
}

/// The text of a graph is a line for the project and then one line for each
/// task, with what it depends on, in order.
pub proof fn law_a_graph_has_one_line_for_each_task(
    document: GraphDocumentView,
    task: Seq<char>,
    needed: Seq<Seq<char>>,
)
    ensures
        graph_text(GraphDocumentView { edges: Seq::empty(), ..document }) == document_head(
            document.project,
            document.root,
        ),
        graph_text(
            GraphDocumentView { edges: document.edges.push((task, needed)), ..document },
        ) == graph_text(document) + seq!['\n'] + task + (if needed.len() == 0 {
            Seq::empty()
        } else {
            " <- "@ + join(needed, ", "@)
        }),
{
    reveal_strlit("\n");
    assert("\n"@ =~= seq!['\n']);
    assert(document.edges.push((task, needed)).drop_last() =~= document.edges);
    let head = document_head(document.project, document.root);
    assert(head + edge_lines(Seq::empty()) =~= head);
    let whole = graph_text(
        GraphDocumentView { edges: document.edges.push((task, needed)), ..document },
    );
    assert(whole =~= graph_text(document) + seq!['\n'] + task + (if needed.len() == 0 {
        Seq::empty()
    } else {
        " <- "@ + join(needed, ", "@)
    }));
}

/// The document of a graph holds its edges as they are.
pub proof fn law_a_graph_shows_its_edges(
    project: ProjectView,
    edges: Seq<(Seq<char>, Seq<Seq<char>>)>,
)
    ensures
        shown_graph(project, edges).edges == edges,
        shown_graph(project, edges).project == project.name,
        shown_graph(project, edges).root == project.root,
{
}

/// The list of a project names every pipeline with its tasks and finalizers, and
/// every task with its command, in order.
pub proof fn law_a_list_names_everything(project: ProjectView)
    ensures
        ({
            let list = listed(project);
            &&& list.project == project.name
            &&& list.root == project.root
            &&& list.default_pipeline == project.default_pipeline
            &&& list.pipelines.len() == project.pipelines.len()
            &&& forall|i: int|
                0 <= i < list.pipelines.len() ==> (#[trigger] list.pipelines[i]).name
                    == project.pipelines[i].0 && list.pipelines[i].tasks == texts(
                    project.pipelines[i].1.tasks@,
                ) && list.pipelines[i].finally == texts(project.pipelines[i].1.finally@)
            &&& list.tasks.len() == project.tasks.len()
            &&& forall|i: int|
                0 <= i < list.tasks.len() ==> (#[trigger] list.tasks[i]).id == project.tasks[i].0
                    && list.tasks[i].command == texts(project.tasks[i].1.command@)
                    && list.tasks[i].stdin == project.tasks[i].1.stdin
        }),
{
}

/// Each pipeline has its line, and a second one where it has finalizers; each
/// task has its line.
pub proof fn law_listed_pipelines_and_tasks_have_their_lines(
    pipelines: Seq<ListPipelineView>,
    pipeline: ListPipelineView,
    tasks: Seq<ListTaskView>,
    task: ListTaskView,
)
    ensures
        pipelines_text(pipelines.push(pipeline)) == pipelines_text(pipelines) + (seq![' ', ' ']
            + pipeline.name + seq![':', ' '] + join(pipeline.tasks, ", "@) + seq!['\n']) + (
        if pipeline.finally.len() == 0 {
            Seq::empty()
        } else {
            "    finally: "@ + join(pipeline.finally, ", "@) + seq!['\n']
        }),
        tasks_text(tasks.push(task)) == tasks_text(tasks) + (seq![' ', ' '] + task.id + seq![
            ':',
            ' ',
        ] + crate::runner::displayed_command(task.command) + seq!['\n']),
{
    reveal_strlit("  ");
    reveal_strlit(": ");
    reveal_strlit("\n");
    assert("  "@ =~= seq![' ', ' ']);
    assert(": "@ =~= seq![':', ' ']);
    assert("\n"@ =~= seq!['\n']);
    assert(pipelines.push(pipeline).drop_last() =~= pipelines);
    assert(tasks.push(task).drop_last() =~= tasks);
    assert(pipelines_text(pipelines.push(pipeline)) =~= pipelines_text(pipelines) + (seq![' ', ' ']
        + pipeline.name + seq![':', ' '] + join(pipeline.tasks, ", "@) + seq!['\n']) + (
    if pipeline.finally.len() == 0 {
        Seq::empty()
    } else {
        "    finally: "@ + join(pipeline.finally, ", "@) + seq!['\n']
    }));
}

} // verus!
