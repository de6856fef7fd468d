//! `mono list` — describe one root project's pipelines and tasks.

use vstd::prelude::*;
use vstd::string::StringExecFns;

use crate::config::{MonoConfig, PipelineConfig, StdinMode, TaskConfig};
use crate::events::EXECUTION_EVENT_SCHEMA;
use crate::output::OutputMode;
use crate::project::error::{fault_text, ProjectError, ProjectFault};
use crate::project::validate::Directories;
use crate::project::{described, load_problem, Project, ProjectView};
use crate::runner::{displayed_command, format_command};
use crate::text::{copy_texts, join, join_texts, optional_text, texts, trim_end, trim_end_text};

verus! {

/// A pipeline of a project.
#[derive(Debug, Clone, PartialEq, Eq)]
pub struct ListPipeline {
    pub name: String,
    pub tasks: Vec<String>,
    pub finally: Vec<String>,
}

/// What a `ListPipeline` says.
pub struct ListPipelineView {
    pub name: Seq<char>,
    pub tasks: Seq<Seq<char>>,
    pub finally: Seq<Seq<char>>,
}

impl View for ListPipeline {
    type V = ListPipelineView;

    open spec fn view(&self) -> ListPipelineView {
        ListPipelineView {
            name: self.name@,
            tasks: texts(self.tasks@),
            finally: texts(self.finally@),
        }
    }
}

/// A task of a project.
#[derive(Debug, Clone, PartialEq, Eq)]
pub struct ListTask {
    pub id: String,
    pub command: Vec<String>,
    pub stdin: StdinMode,
}

/// What a `ListTask` says.
pub struct ListTaskView {
    pub id: Seq<char>,
    pub command: Seq<Seq<char>>,
    pub stdin: StdinMode,
}

impl View for ListTask {
    type V = ListTaskView;

    open spec fn view(&self) -> ListTaskView {
        ListTaskView { id: self.id@, command: texts(self.command@), stdin: self.stdin }
    }
}

/// The description of a project.
#[derive(Debug, Clone, PartialEq, Eq)]
pub struct ListDocument {
    pub schema: u32,
    pub kind: &'static str,
    pub project: String,
    pub root: String,
    pub default_pipeline: String,
    pub pipelines: Vec<ListPipeline>,
    pub tasks: Vec<ListTask>,
}

/// What a `ListDocument` says.
pub struct ListView {
    pub schema: u32,
    pub kind: Seq<char>,
    pub project: Seq<char>,
    pub root: Seq<char>,
    pub default_pipeline: Seq<char>,
    pub pipelines: Seq<ListPipelineView>,
    pub tasks: Seq<ListTaskView>,
}

impl View for ListDocument {
    type V = ListView;

    open spec fn view(&self) -> ListView {
        ListView {
            schema: self.schema,
            kind: self.kind@,
            project: self.project@,
            root: self.root@,
            default_pipeline: self.default_pipeline@,
            pipelines: self.pipelines@.map_values(|p: ListPipeline| p@),
            tasks: self.tasks@.map_values(|t: ListTask| t@),
        }
    }
}

/// The description of a project.
pub open spec fn listed(project: ProjectView) -> ListView {
    ListView {
        schema: EXECUTION_EVENT_SCHEMA,
        kind: "list"@,
        project: project.name,
        root: project.root,
        default_pipeline: project.default_pipeline,
        pipelines: project.pipelines.map_values(
            |e: (Seq<char>, PipelineConfig)|
                ListPipelineView {
                    name: e.0,
                    tasks: texts(e.1.tasks@),
                    finally: texts(e.1.finally@),
                },
        ),
        tasks: project.tasks.map_values(
            |e: (Seq<char>, TaskConfig)|
                ListTaskView { id: e.0, command: texts(e.1.command@), stdin: e.1.stdin },
        ),
    }
}

/// The line of a pipeline.
pub open spec fn pipeline_text(pipeline: ListPipelineView) -> Seq<char> {
    let line = "  "@ + pipeline.name + ": "@ + join(pipeline.tasks, ", "@) + "\n"@;
    if pipeline.finally.len() == 0 {
        line
    } else {
        line + ("    finally: "@ + join(pipeline.finally, ", "@) + "\n"@)
    }
}

/// The lines of some pipelines.
pub open spec fn pipelines_text(pipelines: Seq<ListPipelineView>) -> Seq<char>
    decreases pipelines.len(),
{
    if pipelines.len() == 0 {
        Seq::empty()
    } else {
        pipelines_text(pipelines.drop_last()) + pipeline_text(pipelines.last())
    }
}

/// The line of a task.
pub open spec fn task_text(task: ListTaskView) -> Seq<char> {
    "  "@ + task.id + ": "@ + displayed_command(task.command) + "\n"@
}

/// The lines of some tasks.
pub open spec fn tasks_text(tasks: Seq<ListTaskView>) -> Seq<char>
    decreases tasks.len(),
{
    if tasks.len() == 0 {
        Seq::empty()
    } else {
        tasks_text(tasks.drop_last()) + task_text(tasks.last())
    }
}

/// The commands that a user needs most.
pub open spec fn common_commands() -> Seq<char> {
    "\ncommon commands:\n  mono: Run the default pipeline\n  mono run <pipeline>: Run a named pipeline\n  mono task <task>: Run one or more tasks\n  mono plan: Print the dependency-first plan\n  mono graph: Print dependency edges\n  mono check: Validate the project\n"@
}

/// The description of a project as text.
pub open spec fn list_text(document: ListView) -> Seq<char> {
    trim_end(
        "project "@ + document.project + " ("@ + document.root + ")"@ + "\n\npipelines:\n"@
            + pipelines_text(document.pipelines) + "\ntasks:\n"@ + tasks_text(document.tasks)
            + common_commands(),
    )
}

fn format_pipeline(pipeline: &ListPipeline) -> (r: String)
    ensures
        r@ == pipeline_text(pipeline@),
{
    let mut line = "  ".to_owned();
    line.append(pipeline.name.as_str());
    line.append(": ");
    line.append(join_texts(&pipeline.tasks, ", ").as_str());
    line.append("\n");
    if pipeline.finally.len() > 0 {
        let mut last = "    finally: ".to_owned();
        last.append(join_texts(&pipeline.finally, ", ").as_str());
        last.append("\n");
        line.append(last.as_str());
    }
    line
}

/// The description of a project as text.
pub fn format_list_document(document: &ListDocument) -> (r: String)
    ensures
        r@ == list_text(document@),
{
    let ghost pipelines = document@.pipelines;
    let ghost tasks = document@.tasks;
    let mut output = "project ".to_owned();
    output.append(document.project.as_str());
    output.append(" (");
    output.append(document.root.as_str());
    output.append(")");
    output.append("\n\npipelines:\n");
    let ghost head = output@;
    let mut i: usize = 0;
    assert(output@ =~= head + pipelines_text(pipelines.take(0)));
    while i < document.pipelines.len()
        invariant
            i <= document.pipelines@.len(),
            pipelines == document@.pipelines,
            output@ == head + pipelines_text(pipelines.take(i as int)),
        decreases document.pipelines.len() - i,
    {
        let ghost next = pipelines.take(i as int + 1);
        let ghost before = pipelines_text(pipelines.take(i as int));
        assert(next.drop_last() =~= pipelines.take(i as int));
        assert(next.last() == document.pipelines[i as int]@);
        output.append(format_pipeline(&document.pipelines[i]).as_str());
        assert(output@ =~= head + (before + pipeline_text(next.last())));
        i += 1;
    }
    assert(pipelines.take(i as int) =~= pipelines);
    output.append("\ntasks:\n");
    let ghost middle = output@;
    let mut k: usize = 0;
    assert(output@ =~= middle + tasks_text(tasks.take(0)));
    while k < document.tasks.len()
        invariant
            k <= document.tasks@.len(),
            tasks == document@.tasks,
            output@ == middle + tasks_text(tasks.take(k as int)),
        decreases document.tasks.len() - k,
    {
        let ghost next = tasks.take(k as int + 1);
        let ghost before = tasks_text(tasks.take(k as int));
        assert(next.drop_last() =~= tasks.take(k as int));
        assert(next.last() == document.tasks[k as int]@);
        let mut line = "  ".to_owned();
        line.append(document.tasks[k].id.as_str());
        line.append(": ");
        line.append(format_command(&document.tasks[k].command).as_str());
        line.append("\n");
        output.append(line.as_str());
        assert(output@ =~= middle + (before + task_text(next.last())));
        k += 1;
    }
    assert(tasks.take(k as int) =~= tasks);
    output.append(
        "\ncommon commands:\n  mono: Run the default pipeline\n  mono run <pipeline>: Run a named pipeline\n  mono task <task>: Run one or more tasks\n  mono plan: Print the dependency-first plan\n  mono graph: Print dependency edges\n  mono check: Validate the project\n",
    );
    trim_end_text(output.as_str())
}

/// The description of a loaded project, as an owned value that can be rendered
/// by several transports without retaining the project.
pub fn describe(project: &Project) -> (r: ListDocument)
    ensures
        r@ == listed(project@),
{
    let ghost want = listed(project@);
    let mut pipelines: Vec<ListPipeline> = Vec::new();
    let mut i: usize = 0;
    assert(pipelines@.map_values(|p: ListPipeline| p@) =~= want.pipelines.take(0));
    while i < project.pipelines.len()
        invariant
            i <= project.pipelines@.len(),
            want == listed(project@),
            pipelines@.map_values(|p: ListPipeline| p@) == want.pipelines.take(i as int),
        decreases project.pipelines@.len() - i,
    {
        let ghost before = pipelines@.map_values(|p: ListPipeline| p@);
        let config = project.pipelines.value_at(i);
        let pipeline = ListPipeline {
            name: project.pipelines.key_at(i).to_owned(),
            tasks: copy_texts(&config.tasks),
            finally: copy_texts(&config.finally),
        };
        assert(pipeline@ == want.pipelines[i as int]);
        pipelines.push(pipeline);
        assert(pipelines@.map_values(|p: ListPipeline| p@) =~= before.push(pipeline@));
        i += 1;
        assert(pipelines@.map_values(|p: ListPipeline| p@) =~= want.pipelines.take(i as int));
    }
    assert(want.pipelines.take(i as int) =~= want.pipelines);
    let mut tasks: Vec<ListTask> = Vec::new();
    let mut k: usize = 0;
    assert(tasks@.map_values(|t: ListTask| t@) =~= want.tasks.take(0));
    while k < project.tasks.len()
        invariant
            k <= project.tasks@.len(),
            want == listed(project@),
            tasks@.map_values(|t: ListTask| t@) == want.tasks.take(k as int),
        decreases project.tasks@.len() - k,
    {
        let ghost before = tasks@.map_values(|t: ListTask| t@);
        let config = project.tasks.value_at(k);
        let task = ListTask {
            id: project.tasks.key_at(k).to_owned(),
            command: copy_texts(&config.command),
            stdin: config.stdin,
        };
        assert(task@ == want.tasks[k as int]);
        tasks.push(task);
        assert(tasks@.map_values(|t: ListTask| t@) =~= before.push(task@));
        k += 1;
        assert(tasks@.map_values(|t: ListTask| t@) =~= want.tasks.take(k as int));
    }
    assert(want.tasks.take(k as int) =~= want.tasks);
    ListDocument {
        schema: EXECUTION_EVENT_SCHEMA,
        kind: "list",
        project: project.name.clone(),
        root: project.root.clone(),
        default_pipeline: project.default_pipeline.clone(),
        pipelines,
        tasks,
    }
}

/// What can go wrong with `list`.
#[derive(Debug, PartialEq, Eq)]
pub enum ListError {
    Project(ProjectError),
    Json { source: String },
}

/// What a `ListError` says.
pub enum ListFault {
    Project(ProjectFault),
    Json { source: Seq<char> },
}

impl View for ListError {
    type V = ListFault;

    open spec fn view(&self) -> ListFault {
        match *self {
            ListError::Project(error) => ListFault::Project(error@),
            ListError::Json { source } => ListFault::Json { source: source@ },
        }
    }
}

/// The text that reports a fault.
pub open spec fn list_fault_text(fault: ListFault) -> Seq<char> {
    match fault {
        ListFault::Project(error) => fault_text(error),
        ListFault::Json { source } => "could not serialize list output: "@ + source,
    }
}

impl ListError {
    /// The text that reports the error.
    pub fn message(&self) -> (r: String)
        ensures
            r@ == list_fault_text(self@),
    {
        match self {
            ListError::Project(error) => error.message(),
            ListError::Json { source } => {
                let mut text = "could not serialize list output: ".to_owned();
                text.append(source.as_str());
                text
            },
        }
    }

    /// The text of the failure that this one wraps.
    pub fn source(&self) -> (r: Option<String>)
        ensures
            optional_text(r) == (match self@ {
                ListFault::Project(error) => Some(fault_text(error)),
                ListFault::Json { source } => Some(source),
            }),
    {
        match self {
            ListError::Project(error) => Some(error.message()),
            ListError::Json { source } => Some(source.clone()),
        }
    }
}

/// A description in the form that was asked for.
#[derive(Debug, PartialEq, Eq)]
pub enum Listing {
    Text(String),
    /// To be written as JSON.
    Document(ListDocument),
}

/// Describe the project of a manifest in the given form.
pub fn list_with_output(
    root: &str,
    config: MonoConfig,
    directories: &Directories,
    output_mode: OutputMode,
) -> (r: Result<Listing, ListError>)
    ensures
        match r {
            Ok(listing) => load_problem(root@, config, directories.resolved@) is None && (
            match listing {
                Listing::Text(text) => output_mode != OutputMode::Json && text@ == list_text(
                    listed(described(root@, config)),
                ),
                Listing::Document(document) => output_mode == OutputMode::Json && document@
                    == listed(described(root@, config)),
            }),
            Err(e) => load_problem(root@, config, directories.resolved@) matches Some(fault) && e@
                == ListFault::Project(fault),
        },
{
    match Project::load(root, config, directories) {
        Err(e) => Err(ListError::Project(e)),
        Ok(project) => {
            let document = describe(&project);
            if output_mode == OutputMode::Json {
                Ok(Listing::Document(document))
            } else {
                Ok(Listing::Text(format_list_document(&document)))
            }
        },
    }
}

/// Describe the project of a manifest as text.
pub fn list(root: &str, config: MonoConfig, directories: &Directories) -> (r: Result<
    String,
    ListError,
>)
    ensures
        match r {
            Ok(text) => load_problem(root@, config, directories.resolved@) is None && text@
                == list_text(listed(described(root@, config))),
            Err(e) => load_problem(root@, config, directories.resolved@) matches Some(fault) && e@
                == ListFault::Project(fault),
        },
{
    match Project::load(root, config, directories) {
        Err(e) => Err(ListError::Project(e)),
        Ok(project) => Ok(format_list_document(&describe(&project))),
    }
}

} // verus!
