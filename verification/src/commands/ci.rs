//! Root-project orchestration commands.

use vstd::prelude::*;
use vstd::string::StringExecFns;

use crate::cache::entry::store_root;
use crate::cache::CacheMode;
use crate::config::{MonoConfig, StdinMode};
use crate::events::EXECUTION_EVENT_SCHEMA;
use crate::io::{IoError, IoErrorKind};
use crate::map::keys;
use crate::output::OutputMode;
use crate::path::join_paths;
use crate::project::error::{fault_text, node_ids, ProjectError, ProjectFault, TaskNode};
use crate::project::planned::{plan_view, PlannedTask, PlannedTaskView};
use crate::project::validate::Directories;
use crate::project::{
    described, edges_of, graph_view, load_problem, name_view, plan_of, planned_ids, Project,
    ProjectView,
};
use crate::runner::{displayed_command, format_command, CancellationToken};
use crate::scheduler::error::{scheduler_fault_text, SchedulerError, SchedulerFault};
use crate::scheduler::summary::ExecutionSummary;
use crate::text::{
    copy_optional, copy_texts, decimal, join, join_texts, number, optional_text, texts,
};

verus! {

/// How a pipeline is executed.
#[derive(Debug, Clone)]
pub struct PipelineExecution {
    pub cache: CacheMode,
    pub output: OutputMode,
    pub cancellation: CancellationToken,
}

impl Default for PipelineExecution {
    fn default() -> (r: PipelineExecution)
        ensures
            r.cache == CacheMode::ReadWrite,
            r.output == OutputMode::Terminal,
    {
        PipelineExecution {
            cache: CacheMode::ReadWrite,
            output: OutputMode::Terminal,
            cancellation: CancellationToken::new(),
        }
    }
}

/// What can go wrong with an orchestration command.
#[derive(Debug)]
pub enum CiError {
    InvalidJobs,
    Project(ProjectError),
    Scheduler(Box<SchedulerError>),
    Json { source: String },
}

/// What a `CiError` says.
pub enum CiFault {
    InvalidJobs,
    Project(ProjectFault),
    Scheduler(SchedulerFault),
    Json { source: Seq<char> },
}

impl View for CiError {
    type V = CiFault;

    open spec fn view(&self) -> CiFault {
        match *self {
            CiError::InvalidJobs => CiFault::InvalidJobs,
            CiError::Project(error) => CiFault::Project(error@),
            CiError::Scheduler(error) => CiFault::Scheduler((*error)@),
            CiError::Json { source } => CiFault::Json { source: source@ },
        }
    }
}

/// The text that reports a fault.
pub open spec fn ci_fault_text(fault: CiFault) -> Seq<char> {
    match fault {
        CiFault::InvalidJobs => "--jobs must be greater than zero"@,
        CiFault::Project(error) => fault_text(error),
        CiFault::Scheduler(error) => scheduler_fault_text(error),
        CiFault::Json { source } => "could not serialize JSON output: "@ + source,
    }
}

impl CiError {
    /// The text that reports the error.
    pub fn message(&self) -> (r: String)
        ensures
            r@ == ci_fault_text(self@),
    {
        match self {
            CiError::InvalidJobs => "--jobs must be greater than zero".to_owned(),
            CiError::Project(error) => error.message(),
            CiError::Scheduler(error) => error.message(),
            CiError::Json { source } => {
                let mut text = "could not serialize JSON output: ".to_owned();
                text.append(source.as_str());
                text
            },
        }
    }

    /// The text of the failure that this one wraps, where it wraps one.
    pub fn source(&self) -> (r: Option<String>)
        ensures
            optional_text(r) == (match self@ {
                CiFault::InvalidJobs => None,
                CiFault::Project(error) => Some(fault_text(error)),
                CiFault::Scheduler(error) => Some(scheduler_fault_text(error)),
                CiFault::Json { source } => Some(source),
            }),
    {
        match self {
            CiError::InvalidJobs => None,
            CiError::Project(error) => Some(error.message()),
            CiError::Scheduler(error) => Some(error.message()),
            CiError::Json { source } => Some(source.clone()),
        }
    }
}

// ---------------------------------------------------------------------------
// Plans
// ---------------------------------------------------------------------------
/// A task of a plan.
#[derive(Debug, Clone, PartialEq, Eq)]
pub struct PlanTask {
    pub id: String,
    pub command: Vec<String>,
    pub cwd: String,
    pub stdin: StdinMode,
    pub cache: bool,
    pub inputs: Vec<String>,
    pub outputs: Vec<String>,
    pub cache_env: Vec<String>,
    pub timeout_seconds: u128,
    pub max_output_bytes: usize,
    pub resource_group: Option<String>,
    pub retries: u32,
    pub retry_backoff_seconds: u128,
    pub finalizer: bool,
    pub depends_on: Vec<String>,
    pub env: Vec<String>,
}

/// What a `PlanTask` says.
pub struct PlanTaskView {
    pub id: Seq<char>,
    pub command: Seq<Seq<char>>,
    pub cwd: Seq<char>,
    pub stdin: StdinMode,
    pub cache: bool,
    pub inputs: Seq<Seq<char>>,
    pub outputs: Seq<Seq<char>>,
    pub cache_env: Seq<Seq<char>>,
    pub timeout_seconds: u128,
    pub max_output_bytes: usize,
    pub resource_group: Option<Seq<char>>,
    pub retries: u32,
    pub retry_backoff_seconds: u128,
    pub finalizer: bool,
    pub depends_on: Seq<Seq<char>>,
    pub env: Seq<Seq<char>>,
}

impl View for PlanTask {
    type V = PlanTaskView;

    open spec fn view(&self) -> PlanTaskView {
        PlanTaskView {
            id: self.id@,
            command: texts(self.command@),
            cwd: self.cwd@,
            stdin: self.stdin,
            cache: self.cache,
            inputs: texts(self.inputs@),
            outputs: texts(self.outputs@),
            cache_env: texts(self.cache_env@),
            timeout_seconds: self.timeout_seconds,
            max_output_bytes: self.max_output_bytes,
            resource_group: optional_text(self.resource_group),
            retries: self.retries,
            retry_backoff_seconds: self.retry_backoff_seconds,
            finalizer: self.finalizer,
            depends_on: texts(self.depends_on@),
            env: texts(self.env@),
        }
    }
}

/// A plan, independent of how it is presented.
#[derive(Debug, Clone, PartialEq, Eq)]
pub struct PlanDocument {
    pub schema: u32,
    pub kind: &'static str,
    pub project: String,
    pub root: String,
    pub tasks: Vec<PlanTask>,
}

/// What a `PlanDocument` says.
pub struct PlanDocumentView {
    pub schema: u32,
    pub kind: Seq<char>,
    pub project: Seq<char>,
    pub root: Seq<char>,
    pub tasks: Seq<PlanTaskView>,
}

/// What a list of tasks says.
pub open spec fn plan_task_views(tasks: Seq<PlanTask>) -> Seq<PlanTaskView> {
    tasks.map_values(|t: PlanTask| t@)
}

impl View for PlanDocument {
    type V = PlanDocumentView;

    open spec fn view(&self) -> PlanDocumentView {
        PlanDocumentView {
            schema: self.schema,
            kind: self.kind@,
            project: self.project@,
            root: self.root@,
            tasks: plan_task_views(self.tasks@),
        }
    }
}

/// What is shown of a planned task. Of its environment, only the names are.
pub open spec fn shown_task(task: PlannedTaskView) -> PlanTaskView {
    PlanTaskView {
        id: task.id,
        command: task.command,
        cwd: task.cwd,
        stdin: task.stdin,
        cache: task.cache,
        inputs: task.inputs,
        outputs: task.outputs,
        cache_env: task.cache_env,
        timeout_seconds: task.timeout.nanos / 1_000_000_000,
        max_output_bytes: task.max_output_bytes,
        resource_group: task.resource_group,
        retries: task.retries,
        retry_backoff_seconds: task.retry_backoff.nanos / 1_000_000_000,
        finalizer: task.finalizer,
        depends_on: task.depends_on,
        env: keys(task.env),
    }
}

/// What is shown of a plan.
pub open spec fn shown_plan(project: ProjectView, plan: Seq<PlannedTaskView>) -> PlanDocumentView {
    PlanDocumentView {
        schema: EXECUTION_EVENT_SCHEMA,
        kind: "plan"@,
        project: project.name,
        root: project.root,
        tasks: plan.map_values(|t: PlannedTaskView| shown_task(t)),
    }
}

fn show_task(task: &PlannedTask) -> (r: PlanTask)
    ensures
        r@ == shown_task(task@),
{
    let mut depends_on: Vec<String> = Vec::new();
    let ghost ids = node_ids(task.depends_on@);
    let mut i: usize = 0;
    assert(texts(depends_on@) =~= ids.take(0));
    while i < task.depends_on.len()
        invariant
            i <= task.depends_on@.len(),
            ids == node_ids(task.depends_on@),
            texts(depends_on@) == ids.take(i as int),
        decreases task.depends_on.len() - i,
    {
        let ghost before = texts(depends_on@);
        let id = task.depends_on[i].id.clone();
        assert(ids[i as int] == id@);
        depends_on.push(id);
        assert(texts(depends_on@) =~= before.push(id@));
        i += 1;
        assert(texts(depends_on@) =~= ids.take(i as int));
    }
    assert(ids.take(i as int) =~= ids);
    let env = task.env.keys();
    assert(texts(env@) =~= keys(task@.env));
    PlanTask {
        id: task.id.clone(),
        command: copy_texts(&task.command),
        cwd: task.cwd.clone(),
        stdin: task.stdin,
        cache: task.cache,
        inputs: copy_texts(&task.inputs),
        outputs: copy_texts(&task.outputs),
        cache_env: copy_texts(&task.cache_env),
        timeout_seconds: task.timeout.as_secs(),
        max_output_bytes: task.max_output_bytes,
        resource_group: copy_optional(&task.resource_group),
        retries: task.retries,
        retry_backoff_seconds: task.retry_backoff.as_secs(),
        finalizer: task.finalizer,
        depends_on,
        env,
    }
}

/// What is shown of a plan.
pub fn plan_document(project: &Project, plan: &Vec<PlannedTask>) -> (r: PlanDocument)
    ensures
        r@ == shown_plan(project@, plan_view(plan@)),
{
    let ghost want = shown_plan(project@, plan_view(plan@)).tasks;
    let mut tasks: Vec<PlanTask> = Vec::new();
    let mut i: usize = 0;
    assert(plan_task_views(tasks@) =~= want.take(0));
    while i < plan.len()
        invariant
            i <= plan@.len(),
            want == shown_plan(project@, plan_view(plan@)).tasks,
            plan_task_views(tasks@) == want.take(i as int),
        decreases plan.len() - i,
    {
        let ghost before = plan_task_views(tasks@);
        let task = show_task(&plan[i]);
        assert(want[i as int] == task@);
        tasks.push(task);
        assert(plan_task_views(tasks@) =~= before.push(task@));
        i += 1;
        assert(plan_task_views(tasks@) =~= want.take(i as int));
    }
    assert(want.take(i as int) =~= want);
    PlanDocument {
        schema: EXECUTION_EVENT_SCHEMA,
        kind: "plan",
        project: project.name.clone(),
        root: project.root.clone(),
        tasks,
    }
}

/// The head of a document.
pub open spec fn document_head(project: Seq<char>, root: Seq<char>) -> Seq<char> {
    "project "@ + project + " ("@ + root + ")"@
}

fn format_head(project: &str, root: &str) -> (r: String)
    ensures
        r@ == document_head(project@, root@),
{
    let mut text = "project ".to_owned();
    text.append(project);
    text.append(" (");
    text.append(root);
    text.append(")");
    text
}

/// A list in brackets, where there is anything in it.
pub open spec fn bracketed(name: Seq<char>, values: Seq<Seq<char>>) -> Seq<char> {
    if values.len() == 0 {
        Seq::empty()
    } else {
        " ["@ + name + "="@ + join(values, ", "@) + "]"@
    }
}

fn format_bracketed(name: &str, values: &Vec<String>) -> (r: String)
    ensures
        r@ == bracketed(name@, texts(values@)),
{
    if values.len() == 0 {
        let none = String::new();
        assert(none@ =~= Seq::empty());
        return none;
    }
    let mut text = " [".to_owned();
    text.append(name);
    text.append("=");
    text.append(join_texts(values, ", ").as_str());
    text.append("]");
    text
}

/// The variables that a task sets, without their values.
pub open spec fn redacted(env: Seq<Seq<char>>) -> Seq<char>
    decreases env.len(),
{
    if env.len() == 0 {
        Seq::empty()
    } else {
        redacted(env.drop_last()) + (" [env "@ + env.last() + "=<redacted>]"@)
    }
}

fn format_redacted(env: &Vec<String>) -> (r: String)
    ensures
        r@ == redacted(texts(env@)),
{
    let ghost all = texts(env@);
    let mut text = String::new();
    let mut i: usize = 0;
    assert(text@ =~= redacted(all.take(0)));
    while i < env.len()
        invariant
            i <= env@.len(),
            all == texts(env@),
            text@ == redacted(all.take(i as int)),
        decreases env.len() - i,
    {
        let ghost next = all.take(i as int + 1);
        assert(next.drop_last() =~= all.take(i as int));
        assert(next.last() == env[i as int]@);
        let mut piece = " [env ".to_owned();
        piece.append(env[i].as_str());
        piece.append("=<redacted>]");
        text.append(piece.as_str());
        i += 1;
    }
    assert(all.take(i as int) =~= all);
    text
}

/// The retries of a task, where it has any.
pub open spec fn retries_text(retries: u32, backoff: u128) -> Seq<char> {
    if retries == 0 {
        Seq::empty()
    } else {
        let text = " [retries="@ + decimal(retries as nat) + "]"@;
        if backoff > 0 {
            text + (" [retry_backoff="@ + decimal(backoff as nat) + "s]"@)
        } else {
            text
        }
    }
}

fn format_retries(retries: u32, backoff: u128) -> (r: String)
    ensures
        r@ == retries_text(retries, backoff),
{
    if retries == 0 {
        let none = String::new();
        assert(none@ =~= Seq::empty());
        return none;
    }
    let mut text = " [retries=".to_owned();
    text.append(number(retries as u128).as_str());
    text.append("]");
    if backoff > 0 {
        let mut piece = " [retry_backoff=".to_owned();
        piece.append(number(backoff).as_str());
        piece.append("s]");
        text.append(piece.as_str());
    }
    text
}

/// The line of a task in a plan.
pub open spec fn plan_line(task: PlanTaskView) -> Seq<char> {
    "would run "@ + task.id + " in "@ + task.cwd + ": "@ + displayed_command(task.command)
        + " [timeout="@ + decimal(task.timeout_seconds as nat) + "s]"@ + " [max_output_bytes="@
        + decimal(task.max_output_bytes as nat) + "]"@ + (match task.resource_group {
        Some(group) => " [resource_group="@ + group + "]"@,
        None => Seq::empty(),
    }) + bracketed("inputs"@, task.inputs) + bracketed("outputs"@, task.outputs) + retries_text(
        task.retries,
        task.retry_backoff_seconds,
    ) + (if task.finalizer {
        " [finally]"@
    } else {
        Seq::empty()
    }) + redacted(task.env)
}

/// The lines of a plan, each behind a newline.
pub open spec fn plan_lines(tasks: Seq<PlanTaskView>) -> Seq<char>
    decreases tasks.len(),
{
    if tasks.len() == 0 {
        Seq::empty()
    } else {
        plan_lines(tasks.drop_last()) + ("\n"@ + plan_line(tasks.last()))
    }
}

/// A plan as text.
pub open spec fn plan_text(document: PlanDocumentView) -> Seq<char> {
    document_head(document.project, document.root) + plan_lines(document.tasks)
}

fn format_plan_task(task: &PlanTask) -> (r: String)
    ensures
        r@ == plan_line(task@),
{
    let mut text = "would run ".to_owned();
    text.append(task.id.as_str());
    text.append(" in ");
    text.append(task.cwd.as_str());
    text.append(": ");
    text.append(format_command(&task.command).as_str());
    text.append(" [timeout=");
    text.append(number(task.timeout_seconds).as_str());
    text.append("s]");
    text.append(" [max_output_bytes=");
    text.append(number(task.max_output_bytes as u128).as_str());
    text.append("]");
    let mut group = String::new();
    assert(group@ =~= Seq::empty());
    if let Some(name) = &task.resource_group {
        group = " [resource_group=".to_owned();
        group.append(name.as_str());
        group.append("]");
    }
    text.append(group.as_str());
    text.append(format_bracketed("inputs", &task.inputs).as_str());
    text.append(format_bracketed("outputs", &task.outputs).as_str());
    text.append(format_retries(task.retries, task.retry_backoff_seconds).as_str());
    let mut last = String::new();
    assert(last@ =~= Seq::empty());
    if task.finalizer {
        last = " [finally]".to_owned();
    }
    text.append(last.as_str());
    text.append(format_redacted(&task.env).as_str());
    text
}

/// A plan as text.
pub fn format_plan_document(document: &PlanDocument) -> (r: String)
    ensures
        r@ == plan_text(document@),
{
    let ghost all = document@.tasks;
    let mut output = format_head(document.project.as_str(), document.root.as_str());
    let ghost head = output@;
    let mut i: usize = 0;
    assert(output@ =~= head + plan_lines(all.take(0)));
    while i < document.tasks.len()
        invariant
            i <= document.tasks@.len(),
            all == document@.tasks,
            output@ == head + plan_lines(all.take(i as int)),
        decreases document.tasks.len() - i,
    {
        let ghost next = all.take(i as int + 1);
        let ghost before = plan_lines(all.take(i as int));
        assert(next.drop_last() =~= all.take(i as int));
        assert(next.last() == document.tasks[i as int]@);
        output.append("\n");
        output.append(format_plan_task(&document.tasks[i]).as_str());
        assert(output@ =~= head + (before + ("\n"@ + plan_line(next.last()))));
        i += 1;
    }
    assert(all.take(i as int) =~= all);
    output
}

/// What resolving a plan comes to.
pub open spec fn resolved_plan(
    root: Seq<char>,
    config: MonoConfig,
    directories: Directories,
    pipeline: Option<Seq<char>>,
    requested: Seq<Seq<char>>,
) -> Result<Seq<PlannedTaskView>, CiFault> {
    match load_problem(root, config, directories.resolved@) {
        Some(fault) => Err(CiFault::Project(fault)),
        None => match plan_of(described(root, config), directories.resolved@, pipeline, requested) {
            Err(fault) => Err(CiFault::Project(fault)),
            Ok(plan) => Ok(plan),
        },
    }
}

fn load_and_plan(
    root: &str,
    config: MonoConfig,
    directories: &Directories,
    pipeline: Option<&str>,
    requested_tasks: &Vec<String>,
) -> (r: Result<(Project, Vec<PlannedTask>), CiError>)
    ensures
        match r {
            Ok((project, plan)) => project@ == described(root@, config) && resolved_plan(
                root@,
                config,
                *directories,
                name_view(pipeline),
                texts(requested_tasks@),
            ) == Ok::<Seq<PlannedTaskView>, CiFault>(plan_view(plan@)),
            Err(e) => resolved_plan(
                root@,
                config,
                *directories,
                name_view(pipeline),
                texts(requested_tasks@),
            ) == Err::<Seq<PlannedTaskView>, CiFault>(e@),
        },
{
    let project = match Project::load(root, config, directories) {
        Ok(project) => project,
        Err(e) => {
            return Err(CiError::Project(e));
        },
    };
    match project.plan(directories, pipeline, requested_tasks) {
        Ok(plan) => Ok((project, plan)),
        Err(e) => Err(CiError::Project(e)),
    }
}

/// Resolve a plan into an owned, presentation-independent document.
pub fn plan_result(
    root: &str,
    config: MonoConfig,
    directories: &Directories,
    pipeline: Option<&str>,
    requested_tasks: &Vec<String>,
) -> (r: Result<PlanDocument, CiError>)
    ensures
        match resolved_plan(
            root@,
            config,
            *directories,
            name_view(pipeline),
            texts(requested_tasks@),
        ) {
            Ok(plan) => r matches Ok(document) && document@ == shown_plan(
                described(root@, config),
                plan,
            ),
            Err(fault) => r matches Err(e) && e@ == fault,
        },
{
    match load_and_plan(root, config, directories, pipeline, requested_tasks) {
        Ok((project, plan)) => Ok(plan_document(&project, &plan)),
        Err(e) => Err(e),
    }
}

/// The plan of a pipeline as text.
pub fn plan(
    root: &str,
    config: MonoConfig,
    directories: &Directories,
    pipeline: Option<&str>,
    requested_tasks: &Vec<String>,
) -> (r: Result<String, CiError>)
    ensures
        match resolved_plan(
            root@,
            config,
            *directories,
            name_view(pipeline),
            texts(requested_tasks@),
        ) {
            Ok(plan) => r matches Ok(text) && text@ == plan_text(
                shown_plan(described(root@, config), plan),
            ),
            Err(fault) => r matches Err(e) && e@ == fault,
        },
{
    match plan_result(root, config, directories, pipeline, requested_tasks) {
        Ok(document) => Ok(format_plan_document(&document)),
        Err(e) => Err(e),
    }
}

/// A plan in the form that was asked for.
#[derive(Debug, PartialEq, Eq)]
pub enum PlanOutput {
    Text(String),
    /// To be written as JSON.
    Document(PlanDocument),
}

/// The plan of a pipeline in the given form.
pub fn plan_with_output(
    root: &str,
    config: MonoConfig,
    directories: &Directories,
    pipeline: Option<&str>,
    requested_tasks: &Vec<String>,
    output_mode: OutputMode,
) -> (r: Result<PlanOutput, CiError>)
    ensures
        match resolved_plan(
            root@,
            config,
            *directories,
            name_view(pipeline),
            texts(requested_tasks@),
        ) {
            Ok(plan) => match r {
                Ok(PlanOutput::Text(text)) => output_mode != OutputMode::Json && text@ == plan_text(
                    shown_plan(described(root@, config), plan),
                ),
                Ok(PlanOutput::Document(document)) => output_mode == OutputMode::Json && document@
                    == shown_plan(described(root@, config), plan),
                Err(_) => false,
            },
            Err(fault) => r matches Err(e) && e@ == fault,
        },
{
    match plan_result(root, config, directories, pipeline, requested_tasks) {
        Ok(document) => if output_mode == OutputMode::Json {
            Ok(PlanOutput::Document(document))
        } else {
            Ok(PlanOutput::Text(format_plan_document(&document)))
        },
        Err(e) => Err(e),
    }
}

// ---------------------------------------------------------------------------
// Graphs
// ---------------------------------------------------------------------------
/// A task with its dependencies.
#[derive(Debug, Clone, PartialEq, Eq)]
pub struct GraphEdge {
    pub task: String,
    pub depends_on: Vec<String>,
}

/// Dependency edges, independent of how they are presented.
#[derive(Debug, Clone, PartialEq, Eq)]
pub struct GraphDocument {
    pub schema: u32,
    pub kind: &'static str,
    pub project: String,
    pub root: String,
    pub edges: Vec<GraphEdge>,
}

/// What a list of edges says.
pub open spec fn edge_views(edges: Seq<GraphEdge>) -> Seq<(Seq<char>, Seq<Seq<char>>)> {
    edges.map_values(|e: GraphEdge| (e.task@, texts(e.depends_on@)))
}

/// What a `GraphDocument` says.
pub struct GraphDocumentView {
    pub schema: u32,
    pub kind: Seq<char>,
    pub project: Seq<char>,
    pub root: Seq<char>,
    pub edges: Seq<(Seq<char>, Seq<Seq<char>>)>,
}

impl View for GraphDocument {
    type V = GraphDocumentView;

    open spec fn view(&self) -> GraphDocumentView {
        GraphDocumentView {
            schema: self.schema,
            kind: self.kind@,
            project: self.project@,
            root: self.root@,
            edges: edge_views(self.edges@),
        }
    }
}

/// What is shown of a graph.
pub open spec fn shown_graph(
    project: ProjectView,
    edges: Seq<(Seq<char>, Seq<Seq<char>>)>,
) -> GraphDocumentView {
    GraphDocumentView {
        schema: EXECUTION_EVENT_SCHEMA,
        kind: "graph"@,
        project: project.name,
        root: project.root,
        edges,
    }
}

/// What resolving a graph comes to.
pub open spec fn resolved_graph(
    root: Seq<char>,
    config: MonoConfig,
    directories: Directories,
    pipeline: Option<Seq<char>>,
    requested: Seq<Seq<char>>,
) -> Result<Seq<(Seq<char>, Seq<Seq<char>>)>, CiFault> {
    match load_problem(root, config, directories.resolved@) {
        Some(fault) => Err(CiFault::Project(fault)),
        None => match planned_ids(described(root, config), pipeline, requested) {
            Err(fault) => Err(CiFault::Project(fault)),
            Ok(order) => match edges_of(config.tasks@, order, order.len()) {
                Err(fault) => Err(CiFault::Project(fault)),
                Ok(edges) => Ok(edges),
            },
        },
    }
}

fn show_edges(edges: &Vec<(TaskNode, Vec<TaskNode>)>) -> (r: Vec<GraphEdge>)
    ensures
        edge_views(r@) == graph_view(edges@),
{
    let ghost want = graph_view(edges@);
    let mut out: Vec<GraphEdge> = Vec::new();
    let mut i: usize = 0;
    assert(edge_views(out@) =~= want.take(0));
    while i < edges.len()
        invariant
            i <= edges@.len(),
            want == graph_view(edges@),
            edge_views(out@) == want.take(i as int),
        decreases edges.len() - i,
    {
        let ghost before = edge_views(out@);
        let needed = &edges[i].1;
        let ghost ids = node_ids(needed@);
        let mut depends_on: Vec<String> = Vec::new();
        let mut k: usize = 0;
        assert(texts(depends_on@) =~= ids.take(0));
        while k < needed.len()
            invariant
                k <= needed@.len(),
                ids == node_ids(needed@),
                texts(depends_on@) == ids.take(k as int),
            decreases needed.len() - k,
        {
            let ghost earlier = texts(depends_on@);
            let id = needed[k].id.clone();
            assert(ids[k as int] == id@);
            depends_on.push(id);
            assert(texts(depends_on@) =~= earlier.push(id@));
            k += 1;
            assert(texts(depends_on@) =~= ids.take(k as int));
        }
        assert(ids.take(k as int) =~= ids);
        let edge = GraphEdge { task: edges[i].0.id.clone(), depends_on };
        assert(want[i as int] == (edge.task@, texts(edge.depends_on@)));
        out.push(edge);
        assert(edge_views(out@) =~= before.push((edge.task@, texts(edge.depends_on@))));
        i += 1;
        assert(edge_views(out@) =~= want.take(i as int));
    }
    assert(want.take(i as int) =~= want);
    out
}

/// Resolve dependency edges into an owned, presentation-independent document.
pub fn graph_result(
    root: &str,
    config: MonoConfig,
    directories: &Directories,
    pipeline: Option<&str>,
    requested_tasks: &Vec<String>,
) -> (r: Result<GraphDocument, CiError>)
    ensures
        match resolved_graph(
            root@,
            config,
            *directories,
            name_view(pipeline),
            texts(requested_tasks@),
        ) {
            Ok(edges) => r matches Ok(document) && document@ == shown_graph(
                described(root@, config),
                edges,
            ),
            Err(fault) => r matches Err(e) && e@ == fault,
        },
{
    let project = match Project::load(root, config, directories) {
        Ok(project) => project,
        Err(e) => {
            return Err(CiError::Project(e));
        },
    };
    match project.graph(pipeline, requested_tasks) {
        Err(e) => Err(CiError::Project(e)),
        Ok(edges) => Ok(
            GraphDocument {
                schema: EXECUTION_EVENT_SCHEMA,
                kind: "graph",
                project: project.name,
                root: project.root,
                edges: show_edges(&edges),
            },
        ),
    }
}

/// The line of a task in a graph.
pub open spec fn edge_line(edge: (Seq<char>, Seq<Seq<char>>)) -> Seq<char> {
    if edge.1.len() == 0 {
        edge.0
    } else {
        edge.0 + " <- "@ + join(edge.1, ", "@)
    }
}

/// The lines of a graph, each behind a newline.
pub open spec fn edge_lines(edges: Seq<(Seq<char>, Seq<Seq<char>>)>) -> Seq<char>
    decreases edges.len(),
{
    if edges.len() == 0 {
        Seq::empty()
    } else {
        edge_lines(edges.drop_last()) + ("\n"@ + edge_line(edges.last()))
    }
}

/// A graph as text.
pub open spec fn graph_text(document: GraphDocumentView) -> Seq<char> {
    document_head(document.project, document.root) + edge_lines(document.edges)
}

/// A graph as text.
pub fn format_graph_document(document: &GraphDocument) -> (r: String)
    ensures
        r@ == graph_text(document@),
{
    let ghost all = document@.edges;
    let mut output = format_head(document.project.as_str(), document.root.as_str());
    let ghost head = output@;
    let mut i: usize = 0;
    assert(output@ =~= head + edge_lines(all.take(0)));
    while i < document.edges.len()
        invariant
            i <= document.edges@.len(),
            all == document@.edges,
            output@ == head + edge_lines(all.take(i as int)),
        decreases document.edges.len() - i,
    {
        let ghost next = all.take(i as int + 1);
        let ghost before = edge_lines(all.take(i as int));
        assert(next.drop_last() =~= all.take(i as int));
        let edge = &document.edges[i];
        assert(next.last() == (edge.task@, texts(edge.depends_on@)));
        let mut line = edge.task.clone();
        if edge.depends_on.len() > 0 {
            line.append(" <- ");
            line.append(join_texts(&edge.depends_on, ", ").as_str());
        }
        assert(line@ == edge_line(next.last()));
        output.append("\n");
        output.append(line.as_str());
        assert(output@ =~= head + (before + ("\n"@ + edge_line(next.last()))));
        i += 1;
    }
    assert(all.take(i as int) =~= all);
    output
}

/// The dependency edges of a pipeline as text.
pub fn graph(
    root: &str,
    config: MonoConfig,
    directories: &Directories,
    pipeline: Option<&str>,
    requested_tasks: &Vec<String>,
) -> (r: Result<String, CiError>)
    ensures
        match resolved_graph(
            root@,
            config,
            *directories,
            name_view(pipeline),
            texts(requested_tasks@),
        ) {
            Ok(edges) => r matches Ok(text) && text@ == graph_text(
                shown_graph(described(root@, config), edges),
            ),
            Err(fault) => r matches Err(e) && e@ == fault,
        },
{
    match graph_result(root, config, directories, pipeline, requested_tasks) {
        Ok(document) => Ok(format_graph_document(&document)),
        Err(e) => Err(e),
    }
}

/// A graph in the form that was asked for.
#[derive(Debug, PartialEq, Eq)]
pub enum GraphOutput {
    Text(String),
    /// To be written as JSON.
    Document(GraphDocument),
}

/// The dependency edges of a pipeline in the given form.
pub fn graph_with_output(
    root: &str,
    config: MonoConfig,
    directories: &Directories,
    pipeline: Option<&str>,
    requested_tasks: &Vec<String>,
    output_mode: OutputMode,
) -> (r: Result<GraphOutput, CiError>)
    ensures
        match resolved_graph(
            root@,
            config,
            *directories,
            name_view(pipeline),
            texts(requested_tasks@),
        ) {
            Ok(edges) => match r {
                Ok(GraphOutput::Text(text)) => output_mode != OutputMode::Json && text@
                    == graph_text(shown_graph(described(root@, config), edges)),
                Ok(GraphOutput::Document(document)) => output_mode == OutputMode::Json && document@
                    == shown_graph(described(root@, config), edges),
                Err(_) => false,
            },
            Err(fault) => r matches Err(e) && e@ == fault,
        },
{
    match graph_result(root, config, directories, pipeline, requested_tasks) {
        Ok(document) => if output_mode == OutputMode::Json {
            Ok(GraphOutput::Document(document))
        } else {
            Ok(GraphOutput::Text(format_graph_document(&document)))
        },
        Err(e) => Err(e),
    }
}

// ---------------------------------------------------------------------------
// Runs
// ---------------------------------------------------------------------------
/// What is to be done for a run.
#[derive(Debug)]
pub enum RunRequest {
    /// Nothing is run: the plan is shown.
    Show(PlanOutput),
    /// The plan is run.
    Execute { project: Project, plan: Vec<PlannedTask> },
}

/// What is to be done to run a pipeline. The number of workers is judged
/// before the project is.
pub fn run_pipeline_with_mode(
    root: &str,
    config: MonoConfig,
    directories: &Directories,
    pipeline: Option<&str>,
    requested_tasks: &Vec<String>,
    dry_run: bool,
    jobs: usize,
    execution: &PipelineExecution,
) -> (r: Result<RunRequest, CiError>)
    ensures
        if jobs == 0 {
            r matches Err(e) && e@ == CiFault::InvalidJobs
        } else {
            match resolved_plan(
                root@,
                config,
                *directories,
                name_view(pipeline),
                texts(requested_tasks@),
            ) {
                Err(fault) => r matches Err(e) && e@ == fault,
                Ok(tasks) => match r {
                    Err(_) => false,
                    Ok(RunRequest::Execute { project, plan }) => !dry_run && project@ == described(
                        root@,
                        config,
                    ) && plan_view(plan@) == tasks,
                    Ok(RunRequest::Show(PlanOutput::Text(text))) => dry_run && execution.output
                        != OutputMode::Json && text@ == plan_text(
                        shown_plan(described(root@, config), tasks),
                    ),
                    Ok(RunRequest::Show(PlanOutput::Document(document))) => dry_run
                        && execution.output == OutputMode::Json && document@ == shown_plan(
                        described(root@, config),
                        tasks,
                    ),
                },
            }
        },
{
    if jobs == 0 {
        return Err(CiError::InvalidJobs);
    }
    let (project, plan) = match load_and_plan(root, config, directories, pipeline, requested_tasks) {
        Ok(loaded) => loaded,
        Err(e) => {
            return Err(e);
        },
    };
    if dry_run {
        let document = plan_document(&project, &plan);
        if execution.output == OutputMode::Json {
            Ok(RunRequest::Show(PlanOutput::Document(document)))
        } else {
            Ok(RunRequest::Show(PlanOutput::Text(format_plan_document(&document))))
        }
    } else {
        Ok(RunRequest::Execute { project, plan })
    }
}

/// The summary of a run as text.
pub open spec fn summary_text(summary: ExecutionSummary) -> Seq<char> {
    "summary: "@ + decimal(summary.completed as nat) + " completed, "@ + decimal(
        summary.cached as nat,
    ) + " cached, "@ + decimal(summary.failed as nat) + " failed, "@ + decimal(
        summary.cancelled as nat,
    ) + " cancelled, "@ + decimal(summary.blocked as nat) + " blocked"@
}

/// The summary of a run as text.
pub fn format_summary(summary: &ExecutionSummary) -> (r: String)
    ensures
        r@ == summary_text(*summary),
{
    let mut text = "summary: ".to_owned();
    text.append(number(summary.completed as u128).as_str());
    text.append(" completed, ");
    text.append(number(summary.cached as u128).as_str());
    text.append(" cached, ");
    text.append(number(summary.failed as u128).as_str());
    text.append(" failed, ");
    text.append(number(summary.cancelled as u128).as_str());
    text.append(" cancelled, ");
    text.append(number(summary.blocked as u128).as_str());
    text.append(" blocked");
    text
}

/// What a finished run reports. In JSON, the events have said it all.
pub fn run_report(summary: &ExecutionSummary, output: OutputMode) -> (r: Option<String>)
    ensures
        optional_text(r) == if output == OutputMode::Json {
            None
        } else {
            Some(summary_text(*summary))
        },
{
    if output == OutputMode::Json {
        None
    } else {
        Some(format_summary(summary))
    }
}

/// What removing the cache of a project comes to.
pub fn clean_cache(project_root: &str, removed: Result<(), IoError>) -> (r: Result<String, CiError>)
    ensures
        match r {
            Ok(message) => match removed {
                Ok(_) => message@ == "removed cache "@ + store_root(project_root@),
                Err(error) => error.kind == IoErrorKind::NotFound && message@
                    == "cache is already empty "@ + store_root(project_root@),
            },
            Err(e) => removed matches Err(error) && error.kind != IoErrorKind::NotFound && e@
                == CiFault::Project(
                ProjectFault::Io { path: store_root(project_root@), source: error@ },
            ),
        },
{
    let path = join_paths(join_paths(project_root, ".mono").as_str(), "cache");
    match removed {
        Ok(_) => {
            let mut message = "removed cache ".to_owned();
            message.append(path.as_str());
            Ok(message)
        },
        Err(error) => {
            if error.kind == IoErrorKind::NotFound {
                let mut message = "cache is already empty ".to_owned();
                message.append(path.as_str());
                Ok(message)
            } else {
                Err(CiError::Project(ProjectError::Io { path, source: error }))
            }
        },
    }
}

/// A plan never shows the value of a variable: two planned tasks that differ in
/// nothing but the values of their environments look the same.
pub proof fn law_plans_do_not_show_environment_values(a: PlannedTaskView, b: PlannedTaskView)
    requires
        keys(a.env) == keys(b.env),
        a == (PlannedTaskView { env: a.env, ..b }),
    ensures
        plan_line(shown_task(a)) == plan_line(shown_task(b)),
{
}

} // verus!
